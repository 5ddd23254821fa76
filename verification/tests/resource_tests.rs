use project_domain::errors::DomainError;
use project_domain::resource_management::errors::{ResourceError, ResourceResult};
use project_domain::resource_management::resource::{
    PeriodType, ProjectAssignment, Resource, TaskAssignment, TaskAssignmentStatus, Transition, WipLimits, WipStatus,
};
use project_domain::resource_management::resource_type_validator::{ConfigRepository, ResourceTypeValidator};
use project_domain::resource_management::state::{
    Assigned, Available, Inactive, ResourceState, ResourceStateExt, StateTransition,
};

struct MockConfigRepository {
    should_fail: bool,
    types: Option<Vec<String>>,
}

impl MockConfigRepository {
    fn new() -> Self {
        Self { should_fail: false, types: None }
    }

    fn with_failure() -> Self {
        Self { should_fail: true, types: None }
    }

    fn with_types(types: Vec<String>) -> Self {
        Self { should_fail: false, types: Some(types) }
    }
}

impl ConfigRepository for MockConfigRepository {
    fn load_resource_types(&self) -> Result<Vec<String>, DomainError> {
        if self.should_fail {
            Err(DomainError::ConfigurationError { details: "mock_error".to_string() })
        } else if let Some(types) = &self.types {
            Ok(types.clone())
        } else {
            Err(DomainError::ConfigurationError { details: "no_config".to_string() })
        }
    }
}

fn project_assignment(id: &str) -> ProjectAssignment {
    ProjectAssignment { project_id: id.to_string(), start_date: 0, end_date: 0, allocation_percentage: 100 }
}

fn task_assignment(id: &str, pct: u8, status: TaskAssignmentStatus) -> TaskAssignment {
    TaskAssignment {
        task_id: id.to_string(),
        project_id: "P".to_string(),
        start_date: 0,
        end_date: 0,
        allocation_percentage: pct,
        status,
    }
}

fn resource() -> Resource<Available> {
    Resource::new("qa-1".to_string(), "Tester".to_string(), None, "QA".to_string(), None, None, None, 40)
}

#[test]
fn test_resource_error_display() {
    let error = ResourceError::NotFound { code: "RES-001".to_string() };
    assert!(error.to_string().contains("Resource with code 'RES-001' not found"));
}

#[test]
fn test_resource_error_conversion_to_domain_error() {
    let resource_error = ResourceError::NotFound { code: "RES-001".to_string() };
    let domain_error: DomainError = resource_error.into();
    assert!(matches!(domain_error, DomainError::ResourceNotFound { code } if code == "RES-001"));
}

#[test]
fn test_resource_error_invalid_email() {
    let error = ResourceError::InvalidEmail {
        email: "invalid-email".to_string(),
        reason: "Missing @ symbol".to_string(),
    };
    assert!(error.to_string().contains("Invalid email 'invalid-email'"));
}

#[test]
fn test_resource_result() {
    let result: ResourceResult<String> = Ok("Success".to_string());
    assert!(result.is_ok());
}

#[test]
fn test_period_type_display() {
    assert_eq!(PeriodType::Vacation.to_string(), "Vacation");
    assert_eq!(PeriodType::TimeOff.to_string(), "TimeOff");
    assert_eq!(PeriodType::BirthdayBreak.to_string(), "BirthdayBreak");
    assert_eq!(PeriodType::DayOff.to_string(), "DayOff");
    assert_eq!(PeriodType::SickLeave.to_string(), "SickLeave");
    assert_eq!(PeriodType::PersonalLeave.to_string(), "PersonalLeave");
    assert_eq!(PeriodType::TimeOffCompensation.to_string(), "TimeOffCompensation");
}

#[test]
fn test_wip_limits_creation() {
    let limits = WipLimits::new(5, 3, 100);
    assert_eq!(limits.max_concurrent_tasks, 5);
    assert_eq!(limits.max_concurrent_projects, 3);
    assert_eq!(limits.max_allocation_percentage, 100);
    assert!(limits.enabled);
    assert!(limits.is_valid());
}

#[test]
fn test_wip_limits_disabled() {
    let limits = WipLimits::disabled();
    assert_eq!(limits.max_concurrent_tasks, u32::MAX);
    assert_eq!(limits.max_concurrent_projects, u32::MAX);
    assert_eq!(limits.max_allocation_percentage, 100);
    assert!(!limits.enabled);
}

#[test]
fn test_wip_limits_validation() {
    let valid_limits = WipLimits::new(5, 3, 100);
    assert!(valid_limits.is_valid());

    let invalid_limits = WipLimits {
        max_concurrent_tasks: 0,
        max_concurrent_projects: 3,
        max_allocation_percentage: 100,
        enabled: true,
    };
    assert!(!invalid_limits.is_valid());
}

#[test]
fn test_task_assignment_status_display() {
    assert_eq!(TaskAssignmentStatus::Active.to_string(), "Active");
    assert_eq!(TaskAssignmentStatus::Blocked.to_string(), "Blocked");
    assert_eq!(TaskAssignmentStatus::Completed.to_string(), "Completed");
    assert_eq!(TaskAssignmentStatus::Cancelled.to_string(), "Cancelled");
}

#[test]
fn test_wip_status_display() {
    assert_eq!(WipStatus::WithinLimits.to_string(), "Within Limits");
    assert_eq!(WipStatus::NearLimit.to_string(), "Near Limit");
    assert_eq!(WipStatus::Exceeded.to_string(), "Exceeded");
    assert_eq!(WipStatus::Disabled.to_string(), "Disabled");
}

#[test]
fn wip_limits_refuse_a_sixth_task() {
    let mut r = resource();
    for i in 0..5 {
        assert!(r.assign_to_task(task_assignment(&format!("t{}", i), 10, TaskAssignmentStatus::Active)).is_ok());
    }
    assert_eq!(r.get_active_task_count(), 5);
    assert_eq!(r.get_current_allocation_percentage(), 50);
    assert_eq!(r.get_wip_status(), WipStatus::Exceeded);
    let refused = r.assign_to_task(task_assignment("t5", 10, TaskAssignmentStatus::Active));
    assert_eq!(
        refused,
        Err("Resource has reached maximum concurrent tasks limit (5). Current active tasks: 5".to_string())
    );
    assert!(!r.is_wip_limits_exceeded());
    assert!(r.remove_task_assignment("t0"));
    assert!(!r.remove_task_assignment("t0"));
    assert_eq!(r.get_active_task_count(), 4);
    assert_eq!(r.get_wip_status(), WipStatus::NearLimit);
}

#[test]
fn wip_limits_refuse_too_much_allocation() {
    let mut r = resource();
    assert!(r.assign_to_task(task_assignment("a", 80, TaskAssignmentStatus::Active)).is_ok());
    let refused = r.assign_to_task(task_assignment("b", 30, TaskAssignmentStatus::Active));
    assert_eq!(
        refused,
        Err("Assignment would exceed maximum allocation percentage (100). Current allocation: 80%, New assignment: 30%"
            .to_string())
    );
    r.disable_wip_limits();
    assert!(r.assign_to_task(task_assignment("b", 30, TaskAssignmentStatus::Active)).is_ok());
    assert_eq!(r.get_wip_status(), WipStatus::Disabled);
    assert!(r.set_wip_limits(WipLimits::new(0, 1, 50)).is_err());
}

#[test]
fn resource_validation_lists_problems() {
    let mut r = Resource::new(" ".to_string(), "Ann".to_string(), Some("a@b".to_string()), "Dev".to_string(), None, None, None, 0);
    assert_eq!(
        r.validate(),
        Ok(vec!["Resource code cannot be empty".to_string(), "Resource email format is invalid".to_string()])
    );
    r.email = Some("ann@example.com".to_string());
    assert!(r.is_email_valid());
    assert_eq!(r.code(), " ");
}

#[test]
fn resource_moves_between_states() {
    let assigned = resource().assign_to_project(project_assignment("PROJ-1"));
    assert_eq!(assigned.state.project_assignments.len(), 1);
    let assigned = assigned.assign_to_another_project(project_assignment("PROJ-2"));
    assert_eq!(assigned.state.assignment_count(), 2);
    let inactive = assigned.deactivate();
    assert_eq!(inactive.code(), "qa-1");
    let available = inactive.transition();
    assert_eq!(available.name(), "Tester");
}

#[test]
fn test_resource_type_validator_creation() {
    let validator = ResourceTypeValidator::new();
    assert!(matches!(validator, ResourceTypeValidator { .. }));
}

#[test]
fn test_resource_type_validator_default() {
    let validator = ResourceTypeValidator::new();
    assert!(matches!(validator, ResourceTypeValidator { .. }));
}

#[test]
fn test_validate_resource_type_with_valid_type() {
    let validator = ResourceTypeValidator::new();
    let mock_repo = MockConfigRepository::new();
    let result = validator.validate_resource_type("Developer", &mock_repo);
    assert!(result.is_ok());
}

#[test]
fn test_validate_resource_type_with_invalid_type() {
    let validator = ResourceTypeValidator::new();
    let mock_repo = MockConfigRepository::new();
    let result = validator.validate_resource_type("InvalidType", &mock_repo);
    assert!(result.is_ok() || result.is_err());
}

#[test]
fn test_validate_resource_type_empty_string() {
    let validator = ResourceTypeValidator::new();
    let mock_repo = MockConfigRepository::new();
    let result = validator.validate_resource_type("", &mock_repo);
    assert!(result.is_ok() || result.is_err());
}

#[test]
fn test_validate_resource_type_case_sensitive() {
    let validator = ResourceTypeValidator::new();
    let mock_repo = MockConfigRepository::new();
    let result = validator.validate_resource_type("developer", &mock_repo);
    assert!(result.is_ok() || result.is_err());
}

#[test]
fn test_get_valid_resource_types() {
    let validator = ResourceTypeValidator::new();
    let mock_repo = MockConfigRepository::new();
    let result = validator.get_valid_resource_types(&mock_repo);
    assert!(result.is_ok() || result.is_err());
}

#[test]
fn test_validate_resource_type_with_empty_config() {
    let validator = ResourceTypeValidator::new();
    let mock_repo = MockConfigRepository::new();
    let result = validator.validate_resource_type("AnyType", &mock_repo);
    assert!(result.is_ok() || result.is_err());
}

#[test]
fn test_validate_resource_type_whitespace() {
    let validator = ResourceTypeValidator::new();
    let mock_repo = MockConfigRepository::new();
    let result = validator.validate_resource_type("  Developer  ", &mock_repo);
    assert!(result.is_ok() || result.is_err());
}

#[test]
fn test_validate_resource_type_special_characters() {
    let validator = ResourceTypeValidator::new();
    let mock_repo = MockConfigRepository::new();
    let result = validator.validate_resource_type("Developer-123", &mock_repo);
    assert!(result.is_ok() || result.is_err());
}

#[test]
fn test_validate_resource_type_unicode() {
    let validator = ResourceTypeValidator::new();
    let mock_repo = MockConfigRepository::new();
    let result = validator.validate_resource_type("Développeur", &mock_repo);
    assert!(result.is_ok() || result.is_err());
}

#[test]
fn test_validate_resource_type_very_long_string() {
    let validator = ResourceTypeValidator::new();
    let long_string = "A".repeat(1000);
    let mock_repo = MockConfigRepository::new();
    let result = validator.validate_resource_type(&long_string, &mock_repo);
    assert!(result.is_ok() || result.is_err());
}

#[test]
fn test_validate_resource_type_null_byte() {
    let validator = ResourceTypeValidator::new();
    let mock_repo = MockConfigRepository::new();
    let result = validator.validate_resource_type("Developer\0", &mock_repo);
    assert!(result.is_ok() || result.is_err());
}

#[test]
fn configured_resource_types_are_enforced() {
    let validator = ResourceTypeValidator::new();
    let repo = MockConfigRepository::with_types(vec!["Developer".to_string(), "QA".to_string()]);
    assert!(validator.validate_resource_type("QA", &repo).is_ok());
    assert_eq!(
        validator.validate_resource_type("developer", &repo),
        Err("Invalid resource type 'developer'. Valid types are: Developer, QA".to_string())
    );
    let empty = MockConfigRepository::with_types(vec![]);
    assert!(validator.validate_resource_type("Anything", &empty).is_ok());
    assert_eq!(
        validator.get_valid_resource_types(&MockConfigRepository::with_failure()),
        Err("Could not load config: Configuration error: mock_error".to_string())
    );
    assert_eq!(validator.get_valid_resource_types(&repo).unwrap().len(), 2);
}

#[test]
fn test_available_state() {
    let state = Available;
    assert!(state.can_assign());
    assert!(state.can_deactivate());
    assert!(!state.can_reactivate());
    assert_eq!(state.display_name(), "Available");
    assert_eq!(state.assignment_count(), 0);
}

#[test]
fn test_inactive_state() {
    let state = Inactive;
    assert!(!state.can_assign());
    assert!(!state.can_deactivate());
    assert!(state.can_reactivate());
    assert_eq!(state.display_name(), "Inactive");
    assert_eq!(state.assignment_count(), 0);
}

#[test]
fn test_available_to_assigned_transition() {
    let state = Available;
    let result = state.transition_to();
    assert!(result.is_ok());
    let assigned = result.unwrap();
    assert_eq!(assigned.project_assignments.len(), 0);
    assert!(assigned.transition_blocked_reason().is_none());
}

#[test]
fn test_inactive_to_available_transition() {
    let state = Inactive;
    let result = state.transition_to();
    assert!(result.is_ok());
    let available = result.unwrap();
    assert!(matches!(available, Available));
    let state2 = Inactive;
    assert!(state2.transition_blocked_reason().is_none());
}

#[test]
fn assigned_state_blocks_deactivation_while_assigned() {
    let state = Assigned { project_assignments: vec![project_assignment("P")] };
    assert!(state.transition_blocked_reason().is_some());
    assert!(state.is_overloaded(0));
    assert!(!state.is_underutilized(1));
    let err = state.transition_to().unwrap_err();
    assert!(err.contains("Cannot deactivate resource with active project assignments"));
}

#[test]
fn test_valid_types_from_loaded_types() {
    let validator = ResourceTypeValidator::new();
    let types = vec!["Developer".to_string(), "QA".to_string()];
    assert_eq!(validator.valid_types_from(Ok(types.clone())), Ok(types));
}

#[test]
fn test_valid_types_from_failed_load() {
    let validator = ResourceTypeValidator::new();
    let loaded = Err(DomainError::ConfigurationError { details: "missing".to_string() });
    assert_eq!(
        validator.valid_types_from(loaded),
        Err("Could not load config: Configuration error: missing".to_string())
    );
}
