use project_domain::dates::Date;
use project_domain::project_management::advanced_dependencies::{
    AdvancedDependency, AdvancedDependencyGraph, DependencyType, LagType, TaskNode,
};
use project_domain::project_management::change_propagation_system::{
    ChangePropagationSystem, ChangeType, PropagationConfig, PropagationStatus,
};
use project_domain::project_management::dependency_calculation_engine::CalculationConfig;

fn create_test_graph() -> AdvancedDependencyGraph {
    let mut graph = AdvancedDependencyGraph::new();
    graph.add_task(TaskNode::new("task1".to_string(), "Task 1".to_string(), None, None, Some(5)));
    graph.add_task(TaskNode::new("task2".to_string(), "Task 2".to_string(), None, None, Some(3)));
    let dep = AdvancedDependency::new(
        "task1".to_string(),
        "task2".to_string(),
        DependencyType::FinishToStart,
        LagType::zero(),
        "user1".to_string(),
        None,
    );
    graph.add_dependency(dep).unwrap();
    graph
}

fn start_change(task: &str) -> ChangeType {
    let today = Date::today();
    ChangeType::StartDateChanged(task.to_string(), today, today.checked_add_days(5).unwrap())
}

#[test]
fn test_propagation_system_creation() {
    let system = ChangePropagationSystem::with_default_config();
    assert_eq!(system.get_change_history().len(), 0);
    assert_eq!(system.get_pending_changes().len(), 0);
}

#[test]
fn test_register_change() {
    let mut system = ChangePropagationSystem::with_default_config();
    let mut graph = create_test_graph();

    let result = system.register_change("change1".to_string(), start_change("task1"), &mut graph).unwrap();

    assert_eq!(result.change_id, "change1");
    assert_eq!(result.status, PropagationStatus::Propagated);
}

#[test]
fn test_find_affected_tasks() {
    let system = ChangePropagationSystem::with_default_config();
    let graph = create_test_graph();

    let affected = system.find_affected_tasks(&start_change("task1"), &graph);
    assert!(affected.contains(&"task2".to_string()));
}

#[test]
fn test_validation_error() {
    let system = ChangePropagationSystem::with_default_config();
    let graph = create_test_graph();

    let result = system.validate_change(&start_change("nonexistent"), &graph);
    assert!(result.is_err());
}

#[test]
fn changes_wait_without_automatic_propagation() {
    let config = PropagationConfig { auto_propagate: false, ..PropagationConfig::default() };
    let mut system = ChangePropagationSystem::new(config, CalculationConfig::default());
    let mut graph = create_test_graph();

    let result = system.register_change("change1".to_string(), start_change("task1"), &mut graph).unwrap();
    assert_eq!(result.status, PropagationStatus::Pending);
    assert_eq!(system.get_pending_changes().len(), 1);
    assert_eq!(system.get_change_history().len(), 1);

    // Processing registers each pending change again; without automatic
    // propagation it waits once more.
    let processed = system.process_pending_changes(&mut graph).unwrap();
    assert_eq!(processed.len(), 1);
    assert_eq!(processed[0].status, PropagationStatus::Pending);
    assert_eq!(system.get_pending_changes().len(), 1);
    assert_eq!(system.get_change_history().len(), 2);
}

#[test]
fn rolling_back_an_unknown_change_fails() {
    let mut system = ChangePropagationSystem::with_default_config();
    let mut graph = create_test_graph();
    let err = system.rollback_change("missing", &mut graph).unwrap_err();
    assert!(err.to_text().contains("Change missing not found"));
}

#[test]
fn adding_a_dependency_through_a_change_and_rolling_it_back() {
    let mut system = ChangePropagationSystem::with_default_config();
    let mut graph = AdvancedDependencyGraph::new();
    graph.add_task(TaskNode::new("task1".to_string(), "Task 1".to_string(), None, None, Some(5)));
    graph.add_task(TaskNode::new("task2".to_string(), "Task 2".to_string(), None, None, Some(3)));

    let dep = AdvancedDependency::new(
        "task1".to_string(),
        "task2".to_string(),
        DependencyType::FinishToStart,
        LagType::zero(),
        "user1".to_string(),
        None,
    );
    let result = system.register_change("c1".to_string(), ChangeType::DependencyAdded(dep), &mut graph).unwrap();
    assert!(graph.has_dependency("task1", "task2"));
    assert_eq!(result.affected_tasks.len(), 2);
    assert!(result.affected_tasks.contains(&"task1".to_string()));
    assert!(result.affected_tasks.contains(&"task2".to_string()));

    system.rollback_change("c1", &mut graph).unwrap();
    assert!(!graph.has_dependency("task1", "task2"));
    assert_eq!(system.get_change_history()[0].status, PropagationStatus::Reverted);
}

#[test]
fn a_removed_dependency_cannot_be_rolled_back() {
    let mut system = ChangePropagationSystem::with_default_config();
    let mut graph = create_test_graph();

    let change = ChangeType::DependencyRemoved("task1".to_string(), "task2".to_string());
    system.register_change("c1".to_string(), change, &mut graph).unwrap();
    assert!(!graph.has_dependency("task1", "task2"));

    let err = system.rollback_change("c1", &mut graph).unwrap_err();
    assert!(err.to_text().contains("Cannot rollback dependency removal without original dependency data"));
}

#[test]
fn a_failed_propagation_is_rolled_back() {
    let mut system = ChangePropagationSystem::with_default_config();
    let mut graph = AdvancedDependencyGraph::new();
    graph.add_task(TaskNode::new("task1".to_string(), "Task 1".to_string(), None, None, Some(5)));
    graph.add_task(TaskNode::new("task2".to_string(), "Task 2".to_string(), None, None, Some(-3)));

    let dep = AdvancedDependency::new(
        "task1".to_string(),
        "task2".to_string(),
        DependencyType::FinishToStart,
        LagType::zero(),
        "user1".to_string(),
        None,
    );
    let result = system.register_change("c1".to_string(), ChangeType::DependencyAdded(dep), &mut graph).unwrap();
    assert_eq!(result.status, PropagationStatus::Reverted);
    assert!(result.error_message.as_ref().unwrap().contains("Invalid date range for task task2"));
    assert!(!graph.has_dependency("task1", "task2"));
    assert_eq!(system.get_change_history().len(), 1);
    assert_eq!(system.get_change_history()[0].status, PropagationStatus::Reverted);
}

#[test]
fn a_failed_propagation_without_rollback_is_recorded_as_failed() {
    let config = PropagationConfig { auto_rollback: false, ..PropagationConfig::default() };
    let mut system = ChangePropagationSystem::new(config, CalculationConfig::default());
    let mut graph = AdvancedDependencyGraph::new();
    graph.add_task(TaskNode::new("task1".to_string(), "Task 1".to_string(), None, None, Some(5)));
    graph.add_task(TaskNode::new("task2".to_string(), "Task 2".to_string(), None, None, Some(-3)));

    let dep = AdvancedDependency::new(
        "task1".to_string(),
        "task2".to_string(),
        DependencyType::FinishToStart,
        LagType::zero(),
        "user1".to_string(),
        None,
    );
    let result = system.register_change("c1".to_string(), ChangeType::DependencyAdded(dep), &mut graph).unwrap();
    assert!(matches!(result.status, PropagationStatus::Failed(_)));
    assert!(graph.has_dependency("task1", "task2"));
    assert_eq!(system.get_change_history().len(), 1);
}

#[test]
fn registering_on_a_given_day_refuses_dates_before_it() {
    let config = PropagationConfig { auto_propagate: false, ..PropagationConfig::default() };
    let mut system = ChangePropagationSystem::new(config, CalculationConfig::default());
    let mut graph = create_test_graph();
    let today = Date::from_ymd_opt(2030, 6, 10).unwrap();
    let yesterday = Date::from_ymd_opt(2030, 6, 9).unwrap();
    let change = ChangeType::StartDateChanged("task1".to_string(), yesterday, today);
    let err = system.register_change_at("c1".to_string(), change, &mut graph, today, 5).unwrap_err();
    assert!(err.to_text().contains("Start date cannot be in the past"));
    assert_eq!(system.get_change_history().len(), 0);

    let change = ChangeType::StartDateChanged("task1".to_string(), today, yesterday);
    let r = system.register_change_at("c2".to_string(), change, &mut graph, today, 5).unwrap();
    assert_eq!(r.status, PropagationStatus::Pending);
}

#[test]
fn a_propagated_change_is_stamped_with_the_given_instant() {
    let mut system = ChangePropagationSystem::with_default_config();
    let mut graph = create_test_graph();
    let today = Date::from_ymd_opt(2030, 6, 10).unwrap();
    let change = ChangeType::StartDateChanged("task1".to_string(), today, today);
    let r = system.register_change_at("c1".to_string(), change, &mut graph, today, 777).unwrap();
    assert_eq!(r.status, PropagationStatus::Propagated);
    assert_eq!(r.propagated_at, Some(777));
}
