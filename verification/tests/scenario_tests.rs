use project_domain::dates::Date;
use project_domain::project_management::scenario::{ProjectScenario, ScenarioManager, ScenarioType};

fn day(y: i32, m: u32, d: u32) -> Date {
    Date::from_ymd_opt(y, m, d).unwrap()
}

fn new_scenario(name: &str, kind: ScenarioType) -> ProjectScenario {
    ProjectScenario::new(
        name.to_string(),
        None,
        kind,
        "proj-1".to_string(),
        "PROJ-001".to_string(),
        "Test Project".to_string(),
        "user@example.com".to_string(),
    )
}

#[test]
fn test_scenario_creation() {
    let scenario = ProjectScenario::new(
        "Baseline".to_string(),
        Some("Original plan".to_string()),
        ScenarioType::Baseline,
        "proj-1".to_string(),
        "PROJ-001".to_string(),
        "Test Project".to_string(),
        "user@example.com".to_string(),
    );

    assert_eq!(scenario.name, "Baseline");
    assert_eq!(scenario.scenario_type, ScenarioType::Baseline);
    assert_eq!(scenario.project_id, "proj-1");
    assert!(scenario.is_baseline());
    assert!(!scenario.is_current());
    assert_eq!(scenario.id.len(), 36);
}

#[test]
fn test_scenario_manager() {
    let mut manager = ScenarioManager::new("proj-1".to_string(), "PROJ-001".to_string());

    let baseline = new_scenario("Baseline", ScenarioType::Baseline);
    manager.add_scenario(baseline);

    assert_eq!(manager.scenarios.len(), 1);
    assert!(manager.baseline_scenario_id.is_some());
    assert!(manager.active_scenario_id.is_some());
}

#[test]
fn the_baseline_stays_and_the_active_scenario_moves_on() {
    let mut manager = ScenarioManager::new("proj-1".to_string(), "PROJ-001".to_string());
    let baseline = new_scenario("Baseline", ScenarioType::Baseline);
    let what_if = new_scenario("What if", ScenarioType::WhatIf);
    let base_id = baseline.id.clone();
    let what_if_id = what_if.id.clone();
    manager.add_scenario(baseline);
    manager.add_scenario(what_if);

    assert_eq!(manager.active_scenario_id.as_deref(), Some(base_id.as_str()));
    assert!(manager.remove_scenario(&base_id).is_none());
    assert_eq!(manager.scenarios.len(), 2);

    assert!(manager.set_active_scenario(&what_if_id));
    assert!(!manager.set_baseline_scenario(&what_if_id));
    assert!(!manager.set_active_scenario("unknown"));

    let removed = manager.remove_scenario(&what_if_id).unwrap();
    assert_eq!(removed.name, "What if");
    assert_eq!(manager.active_scenario_id.as_deref(), Some(base_id.as_str()));
    assert_eq!(manager.get_active_scenario().unwrap().name, "Baseline");
    assert_eq!(manager.get_baseline_scenario().unwrap().name, "Baseline");
}

#[test]
fn scenarios_are_listed_by_kind_and_compared() {
    let mut manager = ScenarioManager::new("proj-1".to_string(), "PROJ-001".to_string());
    let mut a = new_scenario("A", ScenarioType::WhatIf);
    let mut b = new_scenario("B", ScenarioType::WhatIf);
    let c = new_scenario("C", ScenarioType::Current);
    a.update_dates(Some(day(2024, 1, 1)), Some(day(2024, 1, 31)));
    b.update_dates(Some(day(2024, 1, 3)), Some(day(2024, 2, 5)));
    let (a_id, b_id) = (a.id.clone(), b.id.clone());
    manager.add_scenario(a);
    manager.add_scenario(b);
    manager.add_scenario(c);

    let what_ifs = manager.list_scenarios_by_type(ScenarioType::WhatIf);
    assert_eq!(what_ifs.len(), 2);
    assert_eq!(manager.list_scenarios_by_type(ScenarioType::Current).len(), 1);
    assert_eq!(manager.list_scenarios_by_type(ScenarioType::Baseline).len(), 0);

    let comparison = manager.compare_scenarios(&a_id, &b_id).unwrap();
    assert_eq!(comparison.start_date_difference, Some(2));
    assert_eq!(comparison.end_date_difference, Some(5));
    assert!(manager.compare_scenarios(&a_id, "unknown").is_none());
}
