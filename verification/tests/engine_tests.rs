use project_domain::dates::Date;
use project_domain::project_management::advanced_dependencies::{
    AdvancedDependency, AdvancedDependencyGraph, DependencyType, LagType, TaskNode,
};
use project_domain::project_management::dependency_calculation_engine::{
    CalculationConfig, CalculationResult, DependencyCalculationEngine, StatusEntry,
};

fn day(y: i32, m: u32, d: u32) -> Date {
    Date::from_ymd_opt(y, m, d).unwrap()
}

fn fs(p: &str, s: &str) -> AdvancedDependency {
    AdvancedDependency::new(
        p.to_string(),
        s.to_string(),
        DependencyType::FinishToStart,
        LagType::zero(),
        "user1".to_string(),
        None,
    )
}

fn create_test_graph() -> AdvancedDependencyGraph {
    let mut graph = AdvancedDependencyGraph::new();
    graph.add_task(TaskNode::new("task1".to_string(), "Task 1".to_string(), None, None, Some(5)));
    graph.add_task(TaskNode::new("task2".to_string(), "Task 2".to_string(), None, None, Some(3)));
    graph.add_task(TaskNode::new("task3".to_string(), "Task 3".to_string(), None, None, Some(2)));
    graph.add_dependency(fs("task1", "task2")).unwrap();
    graph.add_dependency(fs("task2", "task3")).unwrap();
    graph
}

fn has_result(results: &[CalculationResult], id: &str) -> bool {
    results.iter().any(|r| r.task_id == id)
}

fn sample_result(task_id: &str) -> CalculationResult {
    CalculationResult {
        task_id: task_id.to_string(),
        calculated_start_date: Some(day(2024, 1, 1)),
        calculated_end_date: Some(day(2024, 1, 5)),
        is_critical: true,
        total_float: Some(0),
        free_float: None,
        dependencies_satisfied: true,
        calculation_order: 0,
    }
}

#[test]
fn test_engine_creation() {
    let engine = DependencyCalculationEngine::with_default_config();
    assert_eq!(engine.cache_stats(), (0, 0));
}

#[test]
fn test_calculation_config_default() {
    let config = CalculationConfig::default();
    assert_eq!(config.working_hours_per_day, 8);
    assert_eq!(config.default_task_duration, 1);
    assert!(config.cache_enabled);
}

#[test]
fn test_calculate_project_dates() {
    let mut engine = DependencyCalculationEngine::with_default_config();
    let graph = create_test_graph();

    let results = engine.calculate_project_dates(&graph).unwrap();

    assert_eq!(results.len(), 3);
    assert!(has_result(&results, "task1"));
    assert!(has_result(&results, "task2"));
    assert!(has_result(&results, "task3"));
}

#[test]
fn test_topological_sort() {
    let engine = DependencyCalculationEngine::with_default_config();
    let graph = create_test_graph();

    let sorted = engine.topological_sort(&graph).unwrap();
    assert_eq!(sorted.len(), 3);
    assert_eq!(sorted[0], "task1");
    assert_eq!(sorted[1], "task2");
    assert_eq!(sorted[2], "task3");
}

#[test]
fn dependency_calculation_engine_test_circular_dependency_detection() {
    let mut graph = AdvancedDependencyGraph::new();
    graph.add_task(TaskNode::new("task1".to_string(), "Task 1".to_string(), None, None, None));
    graph.add_task(TaskNode::new("task2".to_string(), "Task 2".to_string(), None, None, None));

    graph.add_dependency(fs("task1", "task2")).unwrap();
    let dep2_result = graph.add_dependency(fs("task2", "task1"));
    assert!(dep2_result.is_err());

    let engine = DependencyCalculationEngine::with_default_config();
    let result = engine.topological_sort(&graph);
    assert!(result.is_ok());
}

#[test]
fn test_calculation_result_display() {
    let result = sample_result("task1");

    let display = result.to_string();
    assert!(display.contains("task1"));
    assert!(display.contains("2024-01-01"));
    assert!(display.contains("2024-01-05"));
    assert!(display.contains("Critical: true"));
    assert_eq!(display, "Task task1: 2024-01-01 -> 2024-01-05 (Critical: true, Float: 0 days)");
}

#[test]
fn test_calculation_config_custom() {
    let config = CalculationConfig {
        project_start_date: day(2024, 1, 1),
        default_task_duration: 2,
        working_days_only: true,
        working_hours_per_day: 6,
        cache_enabled: false,
    };

    assert_eq!(config.project_start_date, day(2024, 1, 1));
    assert_eq!(config.default_task_duration, 2);
    assert!(config.working_days_only);
    assert_eq!(config.working_hours_per_day, 6);
    assert!(!config.cache_enabled);
}

#[test]
fn test_dependency_calculation_engine_new() {
    let config = CalculationConfig::default();
    let engine = DependencyCalculationEngine::new(config);
    assert_eq!(engine.cache_stats(), (0, 0));
}

#[test]
fn test_dependency_calculation_engine_with_custom_config() {
    let config = CalculationConfig {
        project_start_date: day(2024, 1, 1),
        default_task_duration: 3,
        working_days_only: false,
        working_hours_per_day: 6,
        cache_enabled: true,
    };
    let engine = DependencyCalculationEngine::new(config);
    assert_eq!(engine.cache_stats(), (0, 0));
}

#[test]
fn test_calculation_result_creation() {
    let result = CalculationResult {
        task_id: "test_task".to_string(),
        calculated_start_date: Some(day(2024, 1, 1)),
        calculated_end_date: Some(day(2024, 1, 5)),
        is_critical: false,
        total_float: Some(2),
        free_float: Some(1),
        dependencies_satisfied: true,
        calculation_order: 1,
    };

    assert_eq!(result.task_id, "test_task");
    assert!(result.calculated_start_date.is_some());
    assert!(result.calculated_end_date.is_some());
    assert!(!result.is_critical);
    assert!(result.total_float.is_some());
    assert!(result.free_float.is_some());
    assert!(result.dependencies_satisfied);
    assert_eq!(result.calculation_order, 1);
}

#[test]
fn test_calculation_result_with_none_dates() {
    let result = CalculationResult {
        task_id: "test_task".to_string(),
        calculated_start_date: None,
        calculated_end_date: None,
        is_critical: false,
        total_float: None,
        free_float: None,
        dependencies_satisfied: false,
        calculation_order: 0,
    };

    assert_eq!(result.task_id, "test_task");
    assert!(result.calculated_start_date.is_none());
    assert!(result.calculated_end_date.is_none());
    assert!(!result.is_critical);
    assert!(result.total_float.is_none());
    assert!(result.free_float.is_none());
    assert!(!result.dependencies_satisfied);
    assert_eq!(result.calculation_order, 0);
    assert_eq!(result.to_string(), "Task test_task: N/A -> N/A (Critical: false, Float: N/A days)");
}

#[test]
fn test_calculate_project_dates_with_empty_graph() {
    let mut engine = DependencyCalculationEngine::with_default_config();
    let graph = AdvancedDependencyGraph::new();

    let results = engine.calculate_project_dates(&graph).unwrap();
    assert_eq!(results.len(), 0);
}

#[test]
fn test_calculate_project_dates_with_single_task() {
    let mut engine = DependencyCalculationEngine::with_default_config();
    let mut graph = AdvancedDependencyGraph::new();
    graph.add_task(TaskNode::new("single_task".to_string(), "Single Task".to_string(), None, None, Some(3)));

    let results = engine.calculate_project_dates(&graph).unwrap();
    assert_eq!(results.len(), 1);
    assert!(has_result(&results, "single_task"));
}

#[test]
fn test_topological_sort_with_empty_graph() {
    let engine = DependencyCalculationEngine::with_default_config();
    let graph = AdvancedDependencyGraph::new();

    let sorted = engine.topological_sort(&graph).unwrap();
    assert_eq!(sorted.len(), 0);
}

#[test]
fn test_topological_sort_with_single_task() {
    let engine = DependencyCalculationEngine::with_default_config();
    let mut graph = AdvancedDependencyGraph::new();
    graph.add_task(TaskNode::new("single_task".to_string(), "Single Task".to_string(), None, None, None));

    let sorted = engine.topological_sort(&graph).unwrap();
    assert_eq!(sorted.len(), 1);
    assert_eq!(sorted[0], "single_task");
}

#[test]
fn test_topological_sort_with_parallel_tasks() {
    let engine = DependencyCalculationEngine::with_default_config();
    let mut graph = AdvancedDependencyGraph::new();
    graph.add_task(TaskNode::new("task1".to_string(), "Task 1".to_string(), None, None, None));
    graph.add_task(TaskNode::new("task2".to_string(), "Task 2".to_string(), None, None, None));
    graph.add_task(TaskNode::new("task3".to_string(), "Task 3".to_string(), None, None, None));

    let sorted = engine.topological_sort(&graph).unwrap();
    assert_eq!(sorted.len(), 3);
    assert!(sorted.contains(&"task1".to_string()));
    assert!(sorted.contains(&"task2".to_string()));
    assert!(sorted.contains(&"task3".to_string()));
}

#[test]
fn test_calculate_task_dates_with_valid_dependency() {
    let engine = DependencyCalculationEngine::with_default_config();
    let mut graph = AdvancedDependencyGraph::new();
    graph.add_task(TaskNode::new("task1".to_string(), "Task 1".to_string(), None, None, Some(5)));
    graph.add_task(TaskNode::new("task2".to_string(), "Task 2".to_string(), None, None, Some(3)));
    graph.add_dependency(fs("task1", "task2")).unwrap();

    let calculation_results: Vec<CalculationResult> = Vec::new();
    let mut task_status: Vec<StatusEntry> = Vec::new();
    let result = engine.calculate_task_dates("task2", &graph, &calculation_results, &mut task_status, 0);

    assert!(result.is_ok());
}

#[test]
fn test_calculate_task_dates_with_nonexistent_task() {
    let engine = DependencyCalculationEngine::with_default_config();
    let graph = AdvancedDependencyGraph::new();
    let calculation_results: Vec<CalculationResult> = Vec::new();
    let mut task_status: Vec<StatusEntry> = Vec::new();

    let result = engine.calculate_task_dates("nonexistent", &graph, &calculation_results, &mut task_status, 0);

    assert!(result.is_err());
}

#[test]
fn test_calculate_task_dates_with_circular_dependency() {
    let _engine = DependencyCalculationEngine::with_default_config();
    let mut graph = AdvancedDependencyGraph::new();
    graph.add_task(TaskNode::new("task1".to_string(), "Task 1".to_string(), None, None, None));
    graph.add_task(TaskNode::new("task2".to_string(), "Task 2".to_string(), None, None, None));

    graph.add_dependency(fs("task1", "task2")).unwrap();
    let dep2_result = graph.add_dependency(fs("task2", "task1"));
    assert!(dep2_result.is_err());
}

#[test]
fn dependency_calculation_engine_test_cache_stats() {
    let engine = DependencyCalculationEngine::with_default_config();
    let (hits, misses) = engine.cache_stats();
    assert_eq!(hits, 0);
    assert_eq!(misses, 0);
}

#[test]
fn test_clear_cache() {
    let mut engine = DependencyCalculationEngine::with_default_config();
    engine.clear_cache();
    let (hits, misses) = engine.cache_stats();
    assert_eq!(hits, 0);
    assert_eq!(misses, 0);
}

#[test]
fn test_get_calculation_config() {
    let config = CalculationConfig::default();
    let engine = DependencyCalculationEngine::new(config.clone());
    let retrieved_config = engine.config();
    assert_eq!(retrieved_config.project_start_date, config.project_start_date);
    assert_eq!(retrieved_config.default_task_duration, config.default_task_duration);
    assert_eq!(retrieved_config.working_hours_per_day, config.working_hours_per_day);
    assert_eq!(retrieved_config.cache_enabled, config.cache_enabled);
    assert_eq!(retrieved_config.working_days_only, config.working_days_only);
}

#[test]
fn test_update_calculation_config() {
    let mut engine = DependencyCalculationEngine::with_default_config();
    let new_config = CalculationConfig { working_hours_per_day: 6, cache_enabled: false, ..Default::default() };

    engine.update_config(new_config.clone());
    let retrieved_config = engine.config();
    assert_eq!(retrieved_config.working_hours_per_day, 6);
    assert!(!retrieved_config.cache_enabled);
}

#[test]
fn test_calculation_result_equality() {
    let result1 = sample_result("task1");
    let result2 = sample_result("task1");
    assert_eq!(result1, result2);
}

#[test]
fn test_calculation_result_inequality() {
    let result1 = sample_result("task1");
    let result2 = sample_result("task2");
    assert_ne!(result1, result2);
}
