use project_domain::dates::Date;
use project_domain::project_management::calculation_cache_system::CacheKey;
use project_domain::project_management::dependency_calculation_engine::CalculationConfig;
use project_domain::project_management::advanced_dependencies::{
    AdvancedDependency, AdvancedDependencyGraph, DependencyType, LagType, TaskNode,
};

fn day(y: i32, m: u32, d: u32) -> Date {
    Date::from_ymd_opt(y, m, d).unwrap()
}

fn node(id: &str, name: &str) -> TaskNode {
    TaskNode::new(id.to_string(), name.to_string(), None, None, None)
}

fn fs(p: &str, s: &str) -> AdvancedDependency {
    AdvancedDependency::new(
        p.to_string(),
        s.to_string(),
        DependencyType::FinishToStart,
        LagType::zero(),
        "user1".to_string(),
        None,
    )
}

fn has_dependency_list(graph: &AdvancedDependencyGraph, id: &str) -> bool {
    match graph.index_of_task(id) {
        Some(i) => i < graph.dependency_list_count(),
        None => false,
    }
}

#[test]
fn test_lag_type_creation() {
    let positive = LagType::positive_days(5);
    let negative = LagType::negative_days(2);
    let zero = LagType::zero();

    assert_eq!(positive.description(), "+5 days");
    assert_eq!(negative.description(), "-2 days");
    assert_eq!(zero.description(), "0 days");
}

#[test]
fn test_lag_type_apply_to_date() {
    let base_date = day(2024, 1, 1);

    let positive = LagType::positive_days(5);
    let negative = LagType::negative_days(2);
    let zero = LagType::zero();

    assert_eq!(positive.apply_to_date(base_date).unwrap(), day(2024, 1, 6));
    assert_eq!(negative.apply_to_date(base_date).unwrap(), day(2023, 12, 30));
    assert_eq!(zero.apply_to_date(base_date).unwrap(), base_date);
}

#[test]
fn test_advanced_dependency_creation() {
    let dep = AdvancedDependency::new(
        "task1".to_string(),
        "task2".to_string(),
        DependencyType::FinishToStart,
        LagType::zero(),
        "user1".to_string(),
        Some("Test dependency".to_string()),
    );

    assert_eq!(dep.predecessor_id, "task1");
    assert_eq!(dep.successor_id, "task2");
    assert_eq!(dep.dependency_type, DependencyType::FinishToStart);
    assert_eq!(dep.lag, LagType::zero());
    assert_eq!(dep.created_by, "user1");
    assert_eq!(dep.description, Some("Test dependency".to_string()));
}

#[test]
fn test_advanced_dependency_validation() {
    let valid_dep = fs("task1", "task2");
    assert!(valid_dep.validate().is_ok());

    let invalid_dep = fs("task1", "task1");
    assert!(invalid_dep.validate().is_err());
}

#[test]
fn test_advanced_dependency_description() {
    let dep = AdvancedDependency::new(
        "task1".to_string(),
        "task2".to_string(),
        DependencyType::FinishToStart,
        LagType::positive_days(2),
        "user1".to_string(),
        Some("Test".to_string()),
    );

    let desc = dep.description();
    assert!(desc.contains("task1"));
    assert!(desc.contains("FS"));
    assert!(desc.contains("+2 days"));
    assert!(desc.contains("task2"));
    assert!(desc.contains("Test"));
}

#[test]
fn test_task_node_creation() {
    let start_date = day(2024, 1, 1);
    let end_date = day(2024, 1, 10);

    let node = TaskNode::new(
        "task1".to_string(),
        "Test Task".to_string(),
        Some(start_date),
        Some(end_date),
        None,
    );

    assert_eq!(node.id, "task1");
    assert_eq!(node.name, "Test Task");
    assert_eq!(node.start_date, Some(start_date));
    assert_eq!(node.end_date, Some(end_date));
    assert_eq!(node.calculate_duration(), Some(9));
}

#[test]
fn test_dependency_graph_creation() {
    let graph = AdvancedDependencyGraph::new();
    assert_eq!(graph.node_count(), 0);
    assert_eq!(graph.dependency_list_count(), 0);
}

#[test]
fn test_dependency_graph_add_task() {
    let mut graph = AdvancedDependencyGraph::new();
    let task = node("task1", "Test Task");

    graph.add_task(task);
    assert!(graph.contains_task("task1"));
    assert!(has_dependency_list(&graph, "task1"));
}

#[test]
fn test_dependency_graph_add_dependency() {
    let mut graph = AdvancedDependencyGraph::new();
    graph.add_task(node("task1", "Task 1"));
    graph.add_task(node("task2", "Task 2"));

    assert!(graph.add_dependency(fs("task1", "task2")).is_ok());
    assert!(graph.has_dependency("task1", "task2"));
}

#[test]
fn test_dependency_graph_circular_dependency() {
    let mut graph = AdvancedDependencyGraph::new();
    graph.add_task(node("task1", "Task 1"));
    graph.add_task(node("task2", "Task 2"));

    assert!(graph.add_dependency(fs("task1", "task2")).is_ok());
    assert!(graph.add_dependency(fs("task2", "task1")).is_err());
}

#[test]
fn test_dependency_graph_validation() {
    let mut graph = AdvancedDependencyGraph::new();
    graph.add_task(node("task1", "Task 1"));
    graph.add_task(node("task2", "Task 2"));

    assert!(graph.add_dependency(fs("task1", "task2")).is_ok());
    assert!(graph.validate().is_ok());
}

#[test]
fn test_dependency_graph_validation_with_cycle() {
    let mut graph = AdvancedDependencyGraph::new();
    graph.add_task(node("task1", "Task 1"));
    graph.add_task(node("task2", "Task 2"));

    assert!(graph.add_dependency(fs("task1", "task2")).is_ok());
    assert!(graph.add_dependency(fs("task2", "task1")).is_err());
}

#[test]
fn setting_task_dates_and_changing_a_dependency() {
    let mut graph = AdvancedDependencyGraph::new();
    graph.add_task(node("task1", "Task 1"));
    graph.add_task(node("task2", "Task 2"));
    graph.add_dependency(fs("task1", "task2")).unwrap();

    graph.set_task_dates("task1", Some(day(2024, 3, 1)), Some(day(2024, 3, 4)));
    let n = graph.get_node("task1").unwrap();
    assert_eq!(n.start_date, Some(day(2024, 3, 1)));
    assert_eq!(n.calculate_duration(), Some(3));

    assert_eq!(graph.get_dependencies("task1").len(), 1);
    assert_eq!(graph.get_dependents("task2").len(), 1);
    assert_eq!(graph.get_dependents("task1").len(), 0);

    graph.change_dependency("task1", "task2", Some(DependencyType::StartToStart), Some(LagType::positive_days(2)));
    let i = graph.index_of_task("task1").unwrap();
    let d = graph.dependency_at(i, 0);
    assert_eq!(d.dependency_type, DependencyType::StartToStart);
    assert_eq!(d.lag, LagType::positive_days(2));
}

#[test]
fn configuration_hash_is_lower_hex_and_follows_the_hashed_fields() {
    let config = CalculationConfig {
        project_start_date: day(2024, 1, 1),
        default_task_duration: 1,
        working_days_only: false,
        working_hours_per_day: 8,
        cache_enabled: true,
    };
    let a = CacheKey::hash_config(&config);
    let b = CacheKey::hash_config(&CalculationConfig { cache_enabled: false, ..config });
    let c = CacheKey::hash_config(&CalculationConfig { working_hours_per_day: 6, ..config });
    assert!(!a.is_empty() && a.len() <= 16);
    assert!(a.chars().all(|ch| ch.is_ascii_digit() || ('a'..='f').contains(&ch)));
    assert!(!a.starts_with('0') || a == "0");
    assert_eq!(a, b);
    assert_ne!(a, c);
}
