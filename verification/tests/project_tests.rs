use project_domain::dates::Date;
use project_domain::errors::DomainError;
use project_domain::project_management::errors::{ProjectError, ProjectResult};
use project_domain::project_management::gantt_chart::{
    GanttAdvancedFeatures, GanttPagination, GanttPerformanceStats, GanttViewType, TaskStatus,
};
use project_domain::project_management::layoff_period::LayoffPeriod;
use project_domain::project_management::project::{Duration, ProjectPriority, ProjectSettings, ProjectStatus};
use project_domain::project_management::scenario::{ProjectScenario, ScenarioComparison, ScenarioType, TaskScenario};
use project_domain::project_management::state::{Cancelled, Completed, InProgress, Planned, ProjectState, StateTransition};
use project_domain::project_management::template::{
    ProjectTemplate, TemplatePhase, TemplateProject, TemplateResource, TemplateSpec, TemplateTask,
};

fn day(y: i32, m: u32, d: u32) -> Date {
    Date::from_ymd_opt(y, m, d).unwrap()
}

#[test]
fn test_project_error_display() {
    let error = ProjectError::NotFound { code: "PROJ-001".to_string() };
    assert!(error.to_string().contains("Project with code 'PROJ-001' not found"));
}

#[test]
fn test_project_error_conversion_to_domain_error() {
    let project_error = ProjectError::NotFound { code: "PROJ-001".to_string() };
    let domain_error: DomainError = project_error.into();
    assert!(matches!(domain_error, DomainError::ProjectNotFound { code } if code == "PROJ-001"));
}

#[test]
fn test_project_error_validation_failed() {
    let error = ProjectError::ValidationFailed { details: "Name is required".to_string() };
    assert!(error.to_string().contains("Project validation failed: Name is required"));
}

#[test]
fn test_project_result() {
    let result: ProjectResult<String> = Ok("Success".to_string());
    assert!(result.is_ok());
}

#[test]
fn project_error_invalid_code_becomes_a_validation_error() {
    let e: DomainError = ProjectError::InvalidCode { code: "X".to_string(), reason: "too short".to_string() }.into();
    assert_eq!(
        e,
        DomainError::ValidationError { field: "code".to_string(), message: "Code 'X' is invalid: too short".to_string() }
    );
}

#[test]
fn test_task_status_descriptions() {
    assert_eq!(TaskStatus::NotStarted.description(), "Não Iniciada");
    assert_eq!(TaskStatus::InProgress.description(), "Em Progresso");
    assert_eq!(TaskStatus::Completed.description(), "Concluída");
    assert_eq!(TaskStatus::Delayed.description(), "Atrasada");
    assert_eq!(TaskStatus::OnHold.description(), "Em Espera");
}

#[test]
fn test_task_status_colors() {
    assert_eq!(TaskStatus::NotStarted.color(), "#e5e7eb");
    assert_eq!(TaskStatus::InProgress.color(), "#3b82f6");
    assert_eq!(TaskStatus::Completed.color(), "#10b981");
    assert_eq!(TaskStatus::Delayed.color(), "#ef4444");
    assert_eq!(TaskStatus::OnHold.color(), "#f59e0b");
}

#[test]
fn test_gantt_view_type_descriptions() {
    assert_eq!(GanttViewType::Days.description(), "Dias");
    assert_eq!(GanttViewType::Weeks.description(), "Semanas");
    assert_eq!(GanttViewType::Months.description(), "Meses");
    assert_eq!(GanttViewType::Quarters.description(), "Trimestres");
}

#[test]
fn gantt_units_between_dates() {
    let a = day(2024, 1, 31);
    let b = day(2024, 5, 1);
    assert_eq!(GanttViewType::Days.days_between(a, b), 91);
    assert_eq!(GanttViewType::Weeks.days_between(a, b), 13);
    assert_eq!(GanttViewType::Weeks.days_between(b, a), -13);
    assert_eq!(GanttViewType::Months.days_between(a, b), 4);
    assert_eq!(GanttViewType::Quarters.days_between(a, b), 1);
}

#[test]
fn gantt_pagination_pages() {
    let p = GanttPagination::new(0, 101, 50);
    assert_eq!(p.total_pages, 3);
    assert!(p.has_next_page);
    assert!(!p.has_previous_page);
    assert_eq!(p.get_page_range(), (0, 50));
    let last = GanttPagination::new(2, 101, 50);
    assert!(!last.has_next_page);
    assert_eq!(last.get_page_range(), (100, 101));
}

#[test]
fn gantt_features_and_stats() {
    let f = GanttAdvancedFeatures::new().with_drag_drop().with_baseline();
    assert!(f.enable_drag_drop && f.enable_baseline && !f.enable_actual_vs_planned);
    assert_eq!(GanttAdvancedFeatures::default(), GanttAdvancedFeatures::new());
    let stats = GanttPerformanceStats {
        total_tasks: 100,
        loaded_tasks: 50,
        total_dependencies: 10,
        is_paginated: true,
        is_optimized: true,
        memory_usage_estimate: 0,
    };
    assert!(stats.is_efficient());
    assert!(!GanttPerformanceStats { loaded_tasks: 100, ..stats }.is_efficient());
}

#[test]
fn test_duration_operations() {
    let duration1 = Duration::new(2, 30);
    let duration2 = Duration::new(1, 45);

    let sum = duration1.add(&duration2);
    assert_eq!(sum.hours, 4);
    assert_eq!(sum.minutes, 15);

    let diff = duration1.subtract(&duration2).unwrap();
    assert_eq!(diff.hours, 0);
    assert_eq!(diff.minutes, 45);

    let result = duration2.subtract(&duration1);
    assert!(result.is_err());
}

#[test]
fn test_duration_from_minutes() {
    let duration = Duration::from_minutes(125);
    assert_eq!(duration.hours, 2);
    assert_eq!(duration.minutes, 5);

    let total_minutes = duration.to_minutes();
    assert_eq!(total_minutes, 125);
}

#[test]
fn subtracting_what_was_added_gives_back_the_minutes() {
    let a = Duration::new(3, 75);
    let b = Duration::new(1, 20);
    let back = a.add(&b).subtract(&b).unwrap();
    assert_eq!(back.to_minutes(), a.to_minutes());
}

#[test]
fn project_status_transitions() {
    assert!(ProjectStatus::Planned.can_transition_to(&ProjectStatus::InProgress));
    assert!(ProjectStatus::InProgress.can_transition_to(&ProjectStatus::Completed));
    assert!(!ProjectStatus::Completed.can_transition_to(&ProjectStatus::InProgress));
    assert!(!ProjectStatus::Planned.can_transition_to(&ProjectStatus::Completed));
    assert!(ProjectStatus::OnHold.is_active());
    assert!(!ProjectStatus::Planned.is_active());
    assert_eq!(ProjectStatus::InProgress.to_string(), "In Progress");
    assert_eq!(ProjectPriority::Critical.weight(), 4);
    let settings = ProjectSettings::default();
    assert_eq!(settings.timezone, Some("UTC".to_string()));
}

#[test]
fn project_states_and_moves() {
    assert!(Planned.can_start() && !Planned.can_complete());
    assert_eq!(InProgress.display_name(), "In Progress");
    assert!(Planned.transition_to().is_ok());
    assert!(InProgress.transition_to().is_ok());
    assert_eq!(
        Completed.transition_to().unwrap_err(),
        "Completed projects cannot transition to other states"
    );
    assert!(Cancelled.transition_blocked_reason().is_some());
}

fn sample_template() -> ProjectTemplate {
    ProjectTemplate::new(
        "Test Template".to_string(),
        "Test Description".to_string(),
        "1.0.0".to_string(),
        vec!["test".to_string()],
        "test".to_string(),
        TemplateSpec {
            project: TemplateProject {
                name: "{{project_name}}".to_string(),
                description: "{{description}}".to_string(),
                start_date: "{{start_date}}".to_string(),
                end_date: "{{end_date}}".to_string(),
                timezone: "UTC".to_string(),
            },
            resources: vec![],
            tasks: vec![],
            phases: vec![],
            variables: Vec::new(),
        },
    )
}

#[test]
fn test_template_validation() {
    let template = sample_template();
    assert!(template.validate().is_ok());
}

#[test]
fn test_template_rendering() {
    let template = sample_template();
    let variables = vec![
        ("project_name".to_string(), "My Project".to_string()),
        ("description".to_string(), "My Description".to_string()),
        ("start_date".to_string(), "2024-01-01".to_string()),
        ("end_date".to_string(), "2024-12-31".to_string()),
    ];
    let rendered = template.render(&variables).unwrap();
    assert_eq!(rendered.project.name, "My Project");
    assert_eq!(rendered.project.description, "My Description");
}

#[test]
fn template_problems_are_reported_in_order() {
    let mut t = sample_template();
    t.spec.tasks.push(TemplateTask {
        name: "Build".to_string(),
        description: "{{project_name}} build".to_string(),
        priority: "High".to_string(),
        category: "dev".to_string(),
        estimated_hours: 0,
        dependencies: vec![],
    });
    assert_eq!(t.validate(), Err("Task 0 estimated hours must be greater than 0".to_string()));
    t.spec.phases.push(TemplatePhase { name: "".to_string(), duration: 2, tasks: vec![] });
    t.spec.resources.push(TemplateResource {
        name: "Dev".to_string(),
        resource_type: "".to_string(),
        skills: vec![],
        capacity: 100,
    });
    assert_eq!(t.validate(), Err("Resource 0 type cannot be empty".to_string()));
}

#[test]
fn rendering_reports_the_first_unresolved_placeholder() {
    let template = sample_template();
    let variables = vec![("project_name".to_string(), "P".to_string())];
    let r = template.render(&variables);
    assert_eq!(r.unwrap_err(), "Unresolved placeholders in template: {{description}}");
}

fn scenario(name: &str, kind: ScenarioType, start: Date, end: Date) -> ProjectScenario {
    ProjectScenario {
        id: name.to_lowercase(),
        name: name.to_string(),
        description: None,
        scenario_type: kind,
        project_id: "proj-1".to_string(),
        project_code: "PROJ-001".to_string(),
        project_name: "Test Project".to_string(),
        status: "Planned".to_string(),
        priority: "Medium".to_string(),
        start_date: Some(start),
        end_date: Some(end),
        actual_start_date: None,
        actual_end_date: None,
        tasks: Vec::new(),
        resource_assignments: Vec::new(),
        created_at: 0,
        created_by: "user@example.com".to_string(),
        metadata: Vec::new(),
    }
}

fn task(id: &str, status: &str) -> TaskScenario {
    TaskScenario {
        task_id: id.to_string(),
        task_code: id.to_uppercase(),
        task_name: id.to_string(),
        status: status.to_string(),
        priority: "Medium".to_string(),
        start_date: None,
        end_date: None,
        actual_start_date: None,
        actual_end_date: None,
        dependencies: vec![],
        resource_assignments: vec![],
        metadata: Vec::new(),
    }
}

#[test]
fn test_scenario_comparison() {
    let scenario1 = scenario("Baseline", ScenarioType::Baseline, day(2024, 1, 1), day(2024, 3, 31));
    let scenario2 = scenario("Current", ScenarioType::Current, day(2024, 1, 5), day(2024, 4, 5));
    let comparison = ScenarioComparison::new(&scenario1, &scenario2);
    assert_eq!(comparison.start_date_difference, Some(4));
    assert_eq!(comparison.end_date_difference, Some(5));
    assert!(comparison.has_significant_changes());
    assert!(comparison.is_delayed);
    assert_eq!(comparison.delay_days, Some(5));
    assert_eq!(comparison.duration_difference, Some(1));
    assert_eq!(comparison.summary(), "Started 4 days later, Ends 5 days later");
}

#[test]
fn scenario_task_differences() {
    let mut s1 = scenario("A", ScenarioType::Baseline, day(2024, 1, 1), day(2024, 2, 1));
    let mut s2 = scenario("B", ScenarioType::WhatIf, day(2024, 1, 1), day(2024, 1, 20));
    s1.tasks = vec![task("t1", "Planned"), task("t2", "Planned")];
    s2.tasks = vec![task("t2", "Done"), task("t3", "Planned"), task("t4", "Planned")];
    let c = ScenarioComparison::new(&s1, &s2);
    assert_eq!(c.new_tasks, vec!["t3".to_string(), "t4".to_string()]);
    assert_eq!(c.removed_tasks, vec!["t1".to_string()]);
    assert_eq!(c.modified_tasks, vec!["t2".to_string()]);
    assert_eq!(c.task_count_difference, 1);
    assert!(c.is_ahead_of_schedule);
    assert_eq!(c.ahead_days, Some(12));
    assert_eq!(
        c.summary(),
        "Ends 12 days earlier, Added 1 tasks, 2 new tasks, 1 removed tasks, 1 modified tasks"
    );
    assert_eq!(ScenarioType::WhatIf.to_string(), "What-If");
}

#[test]
fn layoff_period_rendering() {
    let p = LayoffPeriod { start_date: "2024-12-20".to_string(), end_date: "2025-01-05".to_string() };
    assert_eq!(p.to_string(), "LayoffPeriod { start_date: 2024-12-20, end_date: 2025-01-05 }");
}

#[test]
fn trying_to_render_gives_what_rendering_gives() {
    let template = sample_template();
    let variables = vec![("project_name".to_string(), "P".to_string())];
    let r = template.try_render(&variables).unwrap();
    assert_eq!(r.unwrap_err(), "Unresolved placeholders in template: {{description}}");
}

#[test]
fn trying_to_render_a_placeholder_left_open_gives_nothing() {
    let mut template = sample_template();
    template.spec.project.name = "}} then {{open".to_string();
    let variables = vec![
        ("description".to_string(), "D".to_string()),
        ("start_date".to_string(), "2024-01-01".to_string()),
        ("end_date".to_string(), "2024-12-31".to_string()),
    ];
    assert!(template.try_render(&variables).is_none());
}
