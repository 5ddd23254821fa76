use project_domain::dates::Date;
use project_domain::errors::DomainError;
use project_domain::project_management::builder::ProjectBuilder;
use project_domain::project_management::project::{Project, ProjectPriority, ProjectStatus, ResourceAssignment};
use project_domain::project_management::project_new::Task;

fn day(y: i32, m: u32, d: u32) -> Date {
    Date::from_ymd_opt(y, m, d).unwrap()
}

#[test]
fn test_project_builder_with_required_fields() {
    let project = ProjectBuilder::new()
        .code("PROJ-001".to_string())
        .name("Test Project".to_string())
        .company_code("COMP-001".to_string())
        .created_by("user@example.com".to_string())
        .build()
        .unwrap();

    assert_eq!(project.code(), "PROJ-001");
    assert_eq!(project.name(), "Test Project");
    assert_eq!(project.company_code(), "COMP-001");
    assert_eq!(project.created_by(), "user@example.com");
}

#[test]
fn test_project_builder_with_optional_fields() {
    let start_date = day(2024, 1, 1);
    let end_date = day(2024, 12, 31);

    let project = ProjectBuilder::new()
        .code("PROJ-001".to_string())
        .name("Test Project".to_string())
        .company_code("COMP-001".to_string())
        .created_by("user@example.com".to_string())
        .description(Some("A test project".to_string()))
        .start_date(start_date)
        .end_date(end_date)
        .build()
        .unwrap();

    assert_eq!(project.description, Some("A test project".to_string()));
    assert_eq!(project.start_date, Some(start_date));
    assert_eq!(project.end_date, Some(end_date));
}

#[test]
fn test_project_builder_validation_missing_code() {
    let result = ProjectBuilder::new()
        .name("Test Project".to_string())
        .company_code("COMP-001".to_string())
        .created_by("user@example.com".to_string())
        .build();

    assert!(result.is_err());
}

#[test]
fn test_project_builder_validation_missing_name() {
    let result = ProjectBuilder::new()
        .code("PROJ-001".to_string())
        .company_code("COMP-001".to_string())
        .created_by("user@example.com".to_string())
        .build();

    assert!(result.is_err());
}

#[test]
fn test_project_builder_validation_invalid_dates() {
    let start_date = day(2024, 12, 31);
    let end_date = day(2024, 1, 1);

    let result = ProjectBuilder::new()
        .code("PROJ-001".to_string())
        .name("Test Project".to_string())
        .company_code("COMP-001".to_string())
        .created_by("user@example.com".to_string())
        .start_date(start_date)
        .end_date(end_date)
        .build();

    assert!(result.is_err());
}

#[test]
fn building_reports_the_first_missing_field() {
    let r = ProjectBuilder::new().name("N".to_string()).build_at(0);
    assert_eq!(
        r.unwrap_err(),
        DomainError::ValidationError { field: "code".to_string(), message: "Project code is required".to_string() }
    );
    let r = ProjectBuilder::new().code("C".to_string()).name("N".to_string()).company_code("X".to_string()).build_at(0);
    assert_eq!(
        r.unwrap_err(),
        DomainError::ValidationError { field: "created_by".to_string(), message: "Creator is required".to_string() }
    );
}

#[test]
fn building_refuses_dates_out_of_order() {
    let r = ProjectBuilder::new()
        .code("C".to_string())
        .name("N".to_string())
        .company_code("X".to_string())
        .created_by("U".to_string())
        .start_date(day(2024, 3, 2))
        .end_date(day(2024, 3, 1))
        .build_at(0);
    assert_eq!(
        r.unwrap_err(),
        DomainError::ProjectInvalidState {
            current: "invalid_dates".to_string(),
            expected: "start_date < end_date".to_string()
        }
    );
}

#[test]
fn building_copies_the_fields_and_tasks() {
    let task = Task::new("Design".to_string(), "user-001".to_string()).unwrap();
    let task_id = task.id.clone();
    let project = ProjectBuilder::new()
        .code("C".to_string())
        .name("N".to_string())
        .company_code("X".to_string())
        .created_by("U".to_string())
        .timezone("Europe/Lisbon".to_string())
        .add_task(task)
        .build_at(42)
        .unwrap();
    assert_eq!(project.status, ProjectStatus::Planned);
    assert_eq!(project.priority, ProjectPriority::Medium);
    assert_eq!(project.created_at, 42);
    assert_eq!(project.updated_at, 42);
    assert_eq!(project.settings.timezone, Some("Europe/Lisbon".to_string()));
    assert_eq!(project.settings.vacation_rules, None);
    assert_eq!(project.tasks.len(), 1);
    assert_eq!(project.tasks[0].id, task_id);
    assert!(project.resources.is_empty());
}

#[test]
fn test_project_creation_with_valid_data() {
    let project = Project::new(
        "PROJ-001".to_string(),
        "Test Project".to_string(),
        "COMP-001".to_string(),
        "user@example.com".to_string(),
    )
    .unwrap();

    assert_eq!(project.code(), "PROJ-001");
    assert_eq!(project.name(), "Test Project");
    assert_eq!(project.company_code(), "COMP-001");
    assert_eq!(project.status(), ProjectStatus::Planned);
    assert_eq!(project.priority(), ProjectPriority::Medium);
    assert_eq!(project.created_by(), "user@example.com");
}

#[test]
fn project_test_project_creation_with_empty_code() {
    let result = Project::new(
        "".to_string(),
        "Test Project".to_string(),
        "COMP-001".to_string(),
        "user@example.com".to_string(),
    );
    assert!(result.is_err());
}

#[test]
fn project_test_project_creation_with_empty_name() {
    let result = Project::new(
        "PROJ-001".to_string(),
        "".to_string(),
        "COMP-001".to_string(),
        "user@example.com".to_string(),
    );
    assert!(result.is_err());
}

#[test]
fn a_project_may_have_a_blank_company_code() {
    let project = Project::new("P".to_string(), "N".to_string(), " ".to_string(), "U".to_string()).unwrap();
    assert_eq!(project.company_code(), " ");
}

#[test]
fn a_project_reports_its_problems_in_order() {
    let mut project = Project::new("P".to_string(), "N".to_string(), "C".to_string(), "U".to_string()).unwrap();
    assert!(project.is_code_valid());
    assert!(project.is_name_valid());
    assert_eq!(project.validate(), Ok(vec![]));
    project.code = "  ".to_string();
    project.start_date = Some(day(2024, 3, 2));
    project.end_date = Some(day(2024, 3, 1));
    assert!(!project.is_date_range_valid());
    assert_eq!(
        project.validate(),
        Ok(vec!["Project code cannot be empty".to_string(), "Project end date must be after start date".to_string()])
    );
}

#[test]
fn a_resource_is_assigned_once_to_a_task_and_can_be_taken_off() {
    let mut project = Project::new("P".to_string(), "N".to_string(), "C".to_string(), "U".to_string()).unwrap();
    assert!(!project.has_resources());
    let assignment = || ResourceAssignment {
        resource_id: "R1".to_string(),
        task_id: "T1".to_string(),
        allocation_percentage: 50,
        start_date: None,
        end_date: None,
    };
    project.assign_resource(assignment()).unwrap();
    assert!(project.has_resources());
    assert_eq!(project.resources()[0].0, "R1_T1");
    assert_eq!(
        project.assign_resource(assignment()),
        Err(DomainError::ValidationError {
            field: "resource_assignment".to_string(),
            message: "Resource is already assigned to this".to_string() + " task"
        })
    );
    project.remove_resource_assignment("R1", "T1").unwrap();
    assert!(!project.has_resources());
    assert_eq!(project.description(), None);
}
