use chrono::TimeZone;
use project_domain::dates::Date;
use project_domain::resource_management::any_resource::AnyResource;
use project_domain::resource_management::resource::{
    Period, PeriodType, ProjectAssignment, Resource, TaskAssignment, TaskAssignmentStatus, WipLimits, WipStatus,
};
use project_domain::resource_management::state::{
    Assigned, Available, Inactive, ResourceState, ResourceStateExt, StateTransition,
};

fn dt(year: i32, month: u32, day: u32) -> i64 {
    chrono::Local.with_ymd_and_hms(year, month, day, 0, 0, 0).unwrap().timestamp_millis()
}

fn day(y: i32, m: u32, d: u32) -> Date {
    Date::from_ymd_opt(y, m, d).unwrap()
}

fn create_test_project_assignment() -> ProjectAssignment {
    ProjectAssignment {
        project_id: "PROJ-001".to_string(),
        start_date: dt(2025, 1, 1),
        end_date: dt(2025, 6, 1),
        allocation_percentage: 100,
    }
}

fn full_resource(code: &str, name: &str, email: Option<&str>) -> Resource<Available> {
    Resource::<Available> {
        id: uuid7::uuid7(),
        code: code.to_string(),
        name: name.to_string(),
        email: email.map(|e| e.to_string()),
        resource_type: "Developer".to_string(),
        start_date: None,
        end_date: None,
        vacations: Some(Vec::new()),
        time_off_balance: 160,
        time_off_history: Some(Vec::new()),
        wip_limits: Some(WipLimits::new(5, 3, 100)),
        task_assignments: Some(Vec::new()),
        state: Available,
    }
}

fn john() -> Resource<Available> {
    Resource::new(
        "RES-001".to_string(),
        "John Doe".to_string(),
        Some("john@example.com".to_string()),
        "Developer".to_string(),
        None,
        None,
        None,
        160,
    )
}

fn task(id: &str, pct: u8) -> TaskAssignment {
    TaskAssignment {
        task_id: id.to_string(),
        project_id: "PROJ-001".to_string(),
        start_date: dt(2025, 1, 1),
        end_date: dt(2025, 1, 31),
        allocation_percentage: pct,
        status: TaskAssignmentStatus::Active,
    }
}

#[test]
fn test_assigned_state() {
    let assignments = vec![create_test_project_assignment(), create_test_project_assignment()];
    let state = Assigned { project_assignments: assignments };
    assert!(state.can_assign());
    assert!(state.can_deactivate());
    assert!(!state.can_reactivate());
    assert_eq!(state.display_name(), "Assigned");
    assert_eq!(state.assignment_count(), 2);
}

#[test]
fn test_assigned_to_inactive_transition_success() {
    let state = Assigned { project_assignments: Vec::new() };
    let result = state.transition_to();
    assert!(result.is_ok());
    let inactive = result.unwrap();
    assert!(matches!(inactive, Inactive));
    let state2 = Assigned { project_assignments: Vec::new() };
    assert!(state2.transition_blocked_reason().is_none());
}

#[test]
fn test_assigned_to_inactive_transition_failure() {
    let state = Assigned { project_assignments: vec![create_test_project_assignment()] };
    let result = state.transition_to();
    assert!(result.is_err());
    assert!(result.unwrap_err().contains("Cannot deactivate resource with active project assignments"));
    let state2 = Assigned { project_assignments: vec![create_test_project_assignment()] };
    assert!(state2.transition_blocked_reason().is_some());
    assert!(state2.transition_blocked_reason().unwrap().contains("Resource has active project assignments"));
}

#[test]
fn test_resource_state_ext_is_overloaded() {
    let state = Assigned {
        project_assignments: vec![
            create_test_project_assignment(),
            create_test_project_assignment(),
            create_test_project_assignment(),
        ],
    };
    assert!(state.is_overloaded(2));
    assert!(!state.is_overloaded(5));
}

#[test]
fn test_resource_state_ext_is_underutilized() {
    let state = Assigned { project_assignments: vec![create_test_project_assignment()] };
    assert!(state.is_underutilized(3));
    assert!(!state.is_underutilized(1));
}

#[test]
fn test_available_state_ext_methods() {
    let state = Available;
    assert!(!state.is_overloaded(1));
    assert!(state.is_underutilized(1));
}

#[test]
fn test_inactive_state_ext_methods() {
    let state = Inactive;
    assert!(!state.is_overloaded(1));
    assert!(state.is_underutilized(1));
}

#[test]
fn test_resource_state_transition_to_assigned() {
    let resource =
        Resource::new("qa-1".to_string(), "Tester".to_string(), None, "QA".to_string(), None, None, None, 40);

    let assignment = ProjectAssignment {
        project_id: "PROJ-1".to_string(),
        start_date: dt(2025, 1, 1),
        end_date: dt(2025, 6, 1),
        allocation_percentage: 100,
    };

    let assigned_resource = resource.assign_to_project(assignment.clone());

    assert_eq!(assigned_resource.state.project_assignments.len(), 1);
    assert_eq!(assigned_resource.state.project_assignments[0], assignment);

    let another_assignment = ProjectAssignment {
        project_id: "PROJ-2".to_string(),
        start_date: dt(2025, 7, 1),
        end_date: dt(2025, 12, 1),
        allocation_percentage: 50,
    };

    let multi_assigned_resource = assigned_resource.assign_to_another_project(another_assignment.clone());
    assert_eq!(multi_assigned_resource.state.project_assignments.len(), 2);
}

#[test]
fn test_resource_creation_with_valid_data() {
    let resource = full_resource("RES-001", "John Doe", Some("john.doe@example.com"));

    assert_eq!(resource.code(), "RES-001");
    assert_eq!(resource.name(), "John Doe");
    assert_eq!(resource.email(), Some("john.doe@example.com"));
    assert!(resource.is_code_valid());
    assert!(resource.is_name_valid());
    assert!(resource.is_email_valid());
}

#[test]
fn test_resource_code_validation() {
    let valid_resource = full_resource("RES-001", "Test Resource", Some("test@example.com"));
    assert!(valid_resource.is_code_valid());

    let invalid_resource = full_resource("", "Test Resource", Some("test@example.com"));
    assert!(!invalid_resource.is_code_valid());
}

#[test]
fn test_resource_name_validation() {
    let valid_resource = full_resource("RES-001", "John Doe", Some("john@example.com"));
    assert!(valid_resource.is_name_valid());

    let invalid_resource = full_resource("RES-001", "", Some("john@example.com"));
    assert!(!invalid_resource.is_name_valid());
}

#[test]
fn test_resource_email_validation() {
    let valid_resource = full_resource("RES-001", "John Doe", Some("john.doe@example.com"));
    assert!(valid_resource.is_email_valid());

    let invalid_resource = full_resource("RES-001", "John Doe", Some("invalid-email"));
    assert!(!invalid_resource.is_email_valid());

    let no_email_resource = full_resource("RES-001", "John Doe", None);
    assert!(no_email_resource.is_email_valid());
}

#[test]
fn test_resource_comprehensive_validation() {
    let valid_resource = full_resource("RES-001", "John Doe", Some("john.doe@example.com"));
    let validation_result = valid_resource.validate();
    assert!(validation_result.is_ok());
    assert_eq!(validation_result.unwrap().len(), 0);

    let invalid_resource = full_resource("", "", Some("invalid-email"));
    let validation_result = invalid_resource.validate();
    assert!(validation_result.is_ok());
    let errors = validation_result.unwrap();
    assert!(!errors.is_empty());
    assert!(errors.iter().any(|e| e.contains("code")));
    assert!(errors.iter().any(|e| e.contains("name")));
    assert!(errors.iter().any(|e| e.contains("email")));
}

#[test]
fn test_resource_state_transitions() {
    let available_resource = full_resource("RES-001", "John Doe", Some("john@example.com"));
    let inactive_resource: Resource<Inactive> = available_resource.deactivate();
    assert!(matches!(inactive_resource.state, Inactive));
}

#[test]
fn test_resource_wip_limits_management() {
    let mut resource = john();

    let limits = WipLimits::new(3, 2, 80);
    assert!(resource.set_wip_limits(limits.clone()).is_ok());
    assert_eq!(resource.get_wip_limits(), Some(&limits));

    resource.disable_wip_limits();
    assert!(!resource.get_wip_limits().unwrap().enabled);
}

#[test]
fn test_resource_task_assignment() {
    let mut resource = john();

    let limits = WipLimits::new(2, 1, 100);
    resource.set_wip_limits(limits).unwrap();

    assert!(resource.assign_to_task(task("TASK-001", 50)).is_ok());
    assert_eq!(resource.get_active_task_count(), 1);
    assert_eq!(resource.get_current_allocation_percentage(), 50);

    assert!(resource.assign_to_task(task("TASK-002", 60)).is_err());

    assert!(resource.remove_task_assignment("TASK-001"));
    assert_eq!(resource.get_active_task_count(), 0);
    assert_eq!(resource.get_current_allocation_percentage(), 0);
}

#[test]
fn test_resource_wip_status() {
    let mut resource = john();

    resource.disable_wip_limits();
    assert_eq!(resource.get_wip_status(), WipStatus::Disabled);

    let limits = WipLimits::new(5, 3, 100);
    resource.set_wip_limits(limits).unwrap();
    assert_eq!(resource.get_wip_status(), WipStatus::WithinLimits);

    let limits = WipLimits::new(4, 3, 100);
    resource.set_wip_limits(limits).unwrap();

    for i in 0..3 {
        resource.assign_to_task(task(&format!("TASK-{:03}", i), 25)).unwrap();
    }
    assert_eq!(resource.get_wip_status(), WipStatus::NearLimit);
}

#[test]
fn iterators_walk_the_recorded_absences() {
    let mut resource = john();
    assert!(resource.vacations_iter().is_none());
    resource.vacations = Some(vec![Period {
        start_date: dt(2025, 3, 3),
        end_date: dt(2025, 3, 5),
        approved: true,
        period_type: PeriodType::Vacation,
        is_time_off_compensation: false,
        compensated_hours: None,
        is_layoff: false,
    }]);
    assert_eq!(resource.vacations_iter().unwrap().count(), 1);
    assert_eq!(resource.time_off_history_iter().unwrap().count(), 0);
}

fn any_with_vacation() -> AnyResource {
    let mut resource = john();
    resource.start_date = Some(day(2025, 1, 1));
    resource.end_date = Some(day(2025, 12, 31));
    resource.vacations = Some(vec![Period {
        start_date: dt(2025, 3, 3),
        end_date: dt(2025, 3, 5),
        approved: true,
        period_type: PeriodType::Vacation,
        is_time_off_compensation: false,
        compensated_hours: None,
        is_layoff: false,
    }]);
    AnyResource::from(resource)
}

#[test]
fn any_resource_reads_its_fields() {
    let mut any = any_with_vacation();
    assert_eq!(any.code(), "RES-001");
    assert_eq!(any.name(), "John Doe");
    assert_eq!(any.resource_type(), "Developer");
    assert_eq!(any.email(), Some("john@example.com"));
    assert_eq!(any.time_off_balance(), 160);
    assert_eq!(any.status(), "Available");
    assert_eq!(any.vacations().unwrap().len(), 1);
    assert_eq!(any.vacations_iter().unwrap().count(), 1);
    assert_eq!(any.time_off_history_iter().unwrap().count(), 0);
    assert_eq!(any.max_allocation_percentage(), 100);

    any.set_name("Jane".to_string());
    any.set_email(None);
    any.set_resource_type("Tester".to_string());
    assert_eq!(any.name(), "Jane");
    assert_eq!(any.email(), None);
    assert_eq!(any.resource_type(), "Tester");
}

#[test]
fn any_resource_availability_follows_weekdays_period_and_absences() {
    let any = any_with_vacation();
    assert!(any.is_working_day(day(2025, 3, 7)));
    assert!(!any.is_working_day(day(2025, 3, 8)));
    assert!(any.is_available_on_date(day(2025, 3, 7)));
    assert!(!any.is_available_on_date(day(2025, 3, 8)));
    assert!(!any.is_available_on_date(day(2025, 3, 4)));
    assert!(any.is_holiday(day(2025, 3, 3)));
    assert!(any.is_on_leave(day(2025, 3, 5)));
    assert!(!any.is_holiday(day(2025, 3, 6)));
    assert!(!any.is_available_on_date(day(2024, 12, 31)));
    assert!(!any.is_available_on_date(day(2026, 1, 1)));
    assert!(any.is_available_during_period(day(2025, 3, 10), day(2025, 3, 14)));
    assert!(!any.is_available_during_period(day(2025, 3, 10), day(2025, 3, 15)));
    assert!(any.is_available_during_period(day(2025, 3, 14), day(2025, 3, 10)));
}

#[test]
fn any_resource_deactivates_once() {
    let any = any_with_vacation();
    let inactive = any.deactivate().unwrap();
    assert_eq!(inactive.status(), "Inactive");
    assert_eq!(inactive.max_allocation_percentage(), 0);
    assert!(!inactive.is_available_on_date(day(2025, 3, 7)));
    let err = inactive.deactivate().unwrap_err();
    assert_eq!(err, "Resource is already inactive.");
}

fn local(year: i32, month: u32, day: u32) -> chrono::DateTime<chrono::Local> {
    chrono::Local.with_ymd_and_hms(year, month, day, 0, 0, 0).unwrap()
}

#[test]
fn test_period_display() {
    let period = Period {
        start_date: dt(2025, 1, 1),
        end_date: dt(2025, 1, 10),
        approved: true,
        period_type: PeriodType::Vacation,
        is_time_off_compensation: false,
        compensated_hours: None,
        is_layoff: false,
    };
    let expected = format!(
        "Period {{ start_date: {}, end_date: {}, approved: true, period_type: Vacation, is_time_off_compensation: false, compensated_hours: None, is_layoff: false }}",
        local(2025, 1, 1),
        local(2025, 1, 10)
    );
    assert_eq!(period.to_string(), expected);
}

#[test]
fn test_project_assignment_display() {
    let assignment = ProjectAssignment {
        project_id: "PROJ-R-US".to_string(),
        start_date: dt(2025, 2, 1),
        end_date: dt(2025, 8, 1),
        allocation_percentage: 100,
    };
    let expected = format!(
        "ProjectAssignment: {{ project_id: PROJ-R-US, start_date: {}, end_date: {} }}",
        local(2025, 2, 1),
        local(2025, 8, 1)
    );
    assert_eq!(assignment.to_string(), expected);
}

#[test]
fn period_rendering_with_given_instants() {
    let period = Period {
        start_date: 0,
        end_date: 0,
        approved: false,
        period_type: PeriodType::SickLeave,
        is_time_off_compensation: true,
        compensated_hours: Some(8),
        is_layoff: true,
    };
    assert_eq!(
        period.render("A", "B"),
        "Period { start_date: A, end_date: B, approved: false, period_type: SickLeave, is_time_off_compensation: true, compensated_hours: Some(8), is_layoff: true }"
    );
}
