use project_domain::dates::Date;
use project_domain::errors::DomainError;
use project_domain::project_management::project::{ProjectPriority, ProjectStatus, TaskPriority, TaskStatus};
use project_domain::project_management::project_new::{Project, ResourceAssignment, Task};

fn new_project() -> Project {
    Project::new("PROJ-001".to_string(), "Test Project".to_string(), "COMP-001".to_string(), "user-001".to_string())
        .unwrap()
}

fn assignment(resource: &str, task: &str, start: Date) -> ResourceAssignment {
    ResourceAssignment {
        resource_id: resource.to_string(),
        task_id: task.to_string(),
        allocation_percentage: 100,
        start_date: start,
        end_date: None,
        role: "Developer".to_string(),
        created_at: 0,
    }
}

#[test]
fn test_project_creation() {
    let project = Project::new(
        "PROJ-001".to_string(),
        "Test Project".to_string(),
        "COMP-001".to_string(),
        "user-001".to_string(),
    );

    assert!(project.is_ok());

    let project = project.unwrap();
    assert_eq!(project.code, "PROJ-001");
    assert_eq!(project.name, "Test Project");
    assert_eq!(project.company_code, "COMP-001");
    assert_eq!(project.status, ProjectStatus::Planned);
    assert_eq!(project.priority, ProjectPriority::Medium);
    assert!(project.tasks.is_empty());
    assert!(project.resources.is_empty());
}

#[test]
fn project_new_test_project_creation_with_empty_code() {
    let result =
        Project::new("".to_string(), "Test Project".to_string(), "COMP-001".to_string(), "user-001".to_string());

    assert!(result.is_err());

    if let Err(error) = result {
        assert!(matches!(error, DomainError::ValidationError { .. }));
    }
}

#[test]
fn project_new_test_project_creation_with_empty_name() {
    let result = Project::new("PROJ-001".to_string(), "".to_string(), "COMP-001".to_string(), "user-001".to_string());

    assert!(result.is_err());

    if let Err(error) = result {
        assert!(matches!(error, DomainError::ValidationError { .. }));
    }
}

#[test]
fn project_new_test_project_status_transitions() {
    let mut project = new_project();

    let result = project.change_status(ProjectStatus::InProgress);
    assert!(result.is_err());

    let task = Task::new("Test Task".to_string(), "user-001".to_string()).unwrap();
    project.add_task(task).unwrap();

    let today = Date::today();
    project.assign_resource(assignment("RES-001", "TASK-001", today)).unwrap();

    project.start_date = Some(today);
    project.end_date = Some(today.checked_add_days(30).unwrap());

    let result = project.change_status(ProjectStatus::InProgress);
    assert!(result.is_ok());
    assert_eq!(project.status, ProjectStatus::InProgress);
}

#[test]
fn completing_needs_a_running_project_and_finished_tasks() {
    let mut project = new_project();

    let mut task = Task::new("Test Task".to_string(), "user-001".to_string()).unwrap();
    project.add_task(task.clone()).unwrap();

    let result = project.change_status(ProjectStatus::Completed);
    assert!(result.is_err());

    task.change_status(TaskStatus::Completed).unwrap_err();
    task.change_status(TaskStatus::InProgress).unwrap();
    task.change_status(TaskStatus::Completed).unwrap();
    let i = project.tasks.iter().position(|t| t.id == task.id).unwrap();
    project.tasks[i] = task;

    // A planned project cannot be completed directly: it has to be running.
    assert!(project.change_status(ProjectStatus::Completed).is_err());
}

#[test]
fn test_task_creation() {
    let task = Task::new("Test Task".to_string(), "user-001".to_string());

    assert!(task.is_ok());

    let task = task.unwrap();
    assert_eq!(task.name, "Test Task");
    assert_eq!(task.status, TaskStatus::NotStarted);
    assert_eq!(task.priority, TaskPriority::Medium);
    assert!(task.predecessors.is_empty());
    assert!(task.assigned_resources.is_empty());
}

#[test]
fn test_task_status_transitions() {
    let mut task = Task::new("Test Task".to_string(), "user-001".to_string()).unwrap();

    let result = task.change_status(TaskStatus::InProgress);
    assert!(result.is_ok());
    assert_eq!(task.status, TaskStatus::InProgress);
    assert!(task.actual_start_date.is_some());

    let result = task.change_status(TaskStatus::Completed);
    assert!(result.is_ok());
    assert_eq!(task.status, TaskStatus::Completed);
    assert!(task.actual_end_date.is_some());

    let result = task.change_status(TaskStatus::InProgress);
    assert!(result.is_err());
}

#[test]
fn refused_task_moves_name_both_states() {
    let mut task = Task::new("T".to_string(), "u".to_string()).unwrap();
    let err = task.change_status(TaskStatus::Completed).unwrap_err();
    assert_eq!(err, DomainError::Generic { message: "Cannot transition from NotStarted to Completed".to_string() });
    assert!(Task::new("   ".to_string(), "u".to_string()).is_err());
}

#[test]
fn predecessors_and_resources_of_a_task() {
    let mut task = Task::new("T".to_string(), "u".to_string()).unwrap();
    let own = task.id.clone();
    assert!(task.add_predecessor(own).is_err());
    task.add_predecessor("a".to_string()).unwrap();
    task.add_predecessor("b".to_string()).unwrap();
    task.add_predecessor("a".to_string()).unwrap();
    assert_eq!(task.predecessors, vec!["a".to_string(), "b".to_string()]);
    task.assign_resource("r1".to_string()).unwrap();
    task.assign_resource("r1".to_string()).unwrap();
    assert_eq!(task.assigned_resources.len(), 1);

    task.change_status(TaskStatus::InProgress).unwrap();
    assert!(task.remove_predecessor("a").is_err());
    assert!(task.remove_resource("r1").is_err());
    task.change_status(TaskStatus::OnHold).unwrap();
    task.remove_predecessor("a").unwrap();
    task.remove_resource("r1").unwrap();
    assert_eq!(task.predecessors, vec!["b".to_string()]);
    assert!(task.assigned_resources.is_empty());
    assert!(task.is_started() == false && !task.is_completed());
}

#[test]
fn task_lateness_depends_on_planned_and_actual_ends() {
    let mut task = Task::new("T".to_string(), "u".to_string()).unwrap();
    let d1 = Date::from_ymd_opt(2024, 5, 1).unwrap();
    let d2 = Date::from_ymd_opt(2024, 5, 3).unwrap();
    assert!(!task.is_delayed_on(d2));
    task.end_date = Some(d1);
    assert!(task.is_delayed_on(d2));
    assert!(!task.is_delayed_on(d1));
    task.actual_end_date = Some(d1);
    assert!(!task.is_delayed_on(d2));
}

#[test]
fn project_tasks_and_assignments_are_kept_by_key() {
    let mut project = new_project();
    let task = Task::new("T".to_string(), "u".to_string()).unwrap();
    let id = task.id.clone();
    project.add_task(task.clone()).unwrap();
    assert!(project.add_task(task).is_err());
    assert!(project.has_tasks());

    let later = Date::from_ymd_opt(2030, 1, 1).unwrap();
    project.assign_resource(assignment("R", "T1", later)).unwrap();
    assert!(project.assign_resource(assignment("R", "T1", later)).is_err());
    assert!(project.has_resources());
    assert_eq!(project.resources[0].0, "R_T1");

    let before = Date::from_ymd_opt(2029, 12, 31).unwrap();
    assert!(project.remove_resource_assignment_on("R", "T1", later).is_err());
    project.remove_resource_assignment_on("R", "T1", before).unwrap();
    assert!(!project.has_resources());

    project.remove_task(&id).unwrap();
    assert!(!project.has_tasks());
    project.remove_task("missing").unwrap();
    assert_eq!(project.completed_task_count(), 0);
}

#[test]
fn project_schedule_and_start_conditions() {
    let mut project = new_project();
    let d1 = Date::from_ymd_opt(2024, 5, 1).unwrap();
    let d2 = Date::from_ymd_opt(2024, 5, 3).unwrap();
    assert!(!project.is_on_schedule_on(d1));
    project.end_date = Some(d2);
    assert!(project.is_on_schedule_on(d1));
    assert!(!project.is_on_schedule_on(Date::from_ymd_opt(2024, 5, 4).unwrap()));

    let err = project.change_status(ProjectStatus::InProgress).unwrap_err();
    assert_eq!(err.to_text(), "Project must have at least one task to start");
    project.add_task(Task::new("T".to_string(), "u".to_string()).unwrap()).unwrap();
    let err = project.change_status(ProjectStatus::InProgress).unwrap_err();
    assert_eq!(err.to_text(), "Project must have start and end dates defined");
    project.start_date = Some(d1);
    let err = project.change_status(ProjectStatus::InProgress).unwrap_err();
    assert_eq!(err.to_text(), "Project must have at least one resource assigned");
    project.assign_resource(assignment("R", "T", d1)).unwrap();
    project.change_status(ProjectStatus::InProgress).unwrap();
    assert!(project.actual_start_date.is_some());

    let err = project.change_status(ProjectStatus::Completed).unwrap_err();
    assert_eq!(err.to_text(), "All tasks must be completed to finish project");
    let t = &mut project.tasks[0];
    t.change_status(TaskStatus::InProgress).unwrap();
    t.change_status(TaskStatus::Completed).unwrap();
    assert_eq!(project.completed_task_count(), 1);
    project.change_status(ProjectStatus::Completed).unwrap();
    assert!(project.actual_end_date.is_some());
    let err = project.change_status(ProjectStatus::InProgress).unwrap_err();
    assert_eq!(err.to_text(), "Cannot transition from Completed to InProgress");
}

#[test]
fn starting_a_project_records_the_given_day() {
    let mut project = new_project();
    let task = Task::new("Test Task".to_string(), "user-001".to_string()).unwrap();
    project.add_task(task).unwrap();
    let day = Date::from_ymd_opt(2030, 3, 4).unwrap();
    project.assign_resource(assignment("RES-001", "TASK-001", day)).unwrap();
    project.start_date = Some(day);
    project.end_date = Some(day.checked_add_days(30).unwrap());

    project.change_status_on(ProjectStatus::InProgress, day, 1_234).unwrap();
    assert_eq!(project.status, ProjectStatus::InProgress);
    assert_eq!(project.actual_start_date, Some(day));
    assert_eq!(project.actual_end_date, None);
    assert_eq!(project.updated_at, 1_234);
}

#[test]
fn finishing_a_task_records_the_given_day() {
    let mut task = Task::new("Test Task".to_string(), "user-001".to_string()).unwrap();
    let start = Date::from_ymd_opt(2030, 3, 4).unwrap();
    let end = Date::from_ymd_opt(2030, 3, 9).unwrap();
    task.change_status_on(TaskStatus::InProgress, start, 10).unwrap();
    task.change_status_on(TaskStatus::Completed, end, 20).unwrap();
    assert_eq!(task.actual_start_date, Some(start));
    assert_eq!(task.actual_end_date, Some(end));
    assert_eq!(task.updated_at, 20);
}
