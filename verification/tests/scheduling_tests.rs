use project_domain::scheduling::conflict_resolver::{self, ResolutionMethod};
use project_domain::scheduling::critical_path::RiskLevel;
use project_domain::scheduling::resource_leveler;
use project_domain::scheduling::scheduler::ConflictSeverity;

#[test]
fn conflict_resolver_test_recommendation_priority() {
    let priority = conflict_resolver::RecommendationPriority::High;
    assert_eq!(priority.to_string(), "High");

    let critical = conflict_resolver::RecommendationPriority::Critical;
    assert_eq!(critical.to_string(), "Critical");
}

#[test]
fn resource_leveler_test_recommendation_priority() {
    let priority = resource_leveler::RecommendationPriority::High;
    assert_eq!(priority.to_string(), "High");

    let critical = resource_leveler::RecommendationPriority::Critical;
    assert_eq!(critical.to_string(), "Critical");
}

#[test]
fn scheduling_names() {
    assert_eq!(ResolutionMethod::TimeShifting.to_string(), "Time Shifting");
    assert_eq!(ResolutionMethod::Failed.to_string(), "Failed");
    assert_eq!(RiskLevel::Medium.to_string(), "Medium");
    assert_eq!(ConflictSeverity::Critical.to_string(), "Critical");
}
