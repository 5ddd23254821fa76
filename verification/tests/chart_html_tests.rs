use project_domain::dates::Date;
use project_domain::project_management::advanced_dependencies::DependencyType;
use project_domain::project_management::gantt_chart::{chart_html, ChartTask, GanttConfig, GanttDependency, TaskStatus};

fn day(y: i32, m: u32, d: u32) -> Date {
    Date::from_ymd_opt(y, m, d).unwrap()
}

fn legend() -> String {
    [
    "<div class=\"gantt-legend\">",
    "\n                <div class=\"gantt-legend-item\">\n                    <div class=\"gantt-legend-color\" style=\"background-color: #e5e7eb;\"></div>\n                    <span>Não Iniciada</span>\n                </div>\n            ",
    "\n                <div class=\"gantt-legend-item\">\n                    <div class=\"gantt-legend-color\" style=\"background-color: #3b82f6;\"></div>\n                    <span>Em Progresso</span>\n                </div>\n            ",
    "\n                <div class=\"gantt-legend-item\">\n                    <div class=\"gantt-legend-color\" style=\"background-color: #10b981;\"></div>\n                    <span>Concluída</span>\n                </div>\n            ",
    "\n                <div class=\"gantt-legend-item\">\n                    <div class=\"gantt-legend-color\" style=\"background-color: #ef4444;\"></div>\n                    <span>Atrasada</span>\n                </div>\n            ",
    "\n                <div class=\"gantt-legend-item\">\n                    <div class=\"gantt-legend-color\" style=\"background-color: #f59e0b;\"></div>\n                    <span>Em Espera</span>\n                </div>\n            ",
    "</div>",
    ]
    .concat()
}

#[test]
fn the_chart_lists_each_day_each_task_each_dependency_and_the_legend() {
    let config = GanttConfig::new("Plan".to_string(), day(2024, 2, 28), day(2024, 3, 1));
    let tasks = vec![ChartTask {
        name: "Build".to_string(),
        status: TaskStatus::InProgress,
        progress_width: 40,
        resource: Some("Ana".to_string()),
    }];
    let deps = vec![GanttDependency {
        from_task: "A".to_string(),
        to_task: "B".to_string(),
        dependency_type: DependencyType::FinishToStart,
    }];
    let html = chart_html(&config, &tasks, &deps);
    let expected = String::new()
        + "\n<div class=\"gantt-container\">\n    <div class=\"gantt-header\">Plan</div>\n    <div class=\"gantt-timeline\">\n"
        + "<div class=\"gantt-timeline-item\">28/02</div>"
        + "<div class=\"gantt-timeline-item\">29/02</div>"
        + "<div class=\"gantt-timeline-item\">01/03</div>"
        + "</div><div class=\"gantt-tasks\">"
        + "\n                <div class=\"gantt-task\">\n                    <div class=\"gantt-task-name\">Build</div>\n                    <div class=\"gantt-task-bar\">\n                        <div class=\"gantt-task-progress gantt-task-status-in-progress\" \n                             style=\"width: 40%; background-color: #3b82f6;\"></div>\n                    </div>\n                    <div class=\"gantt-task-resource\">Ana</div>\n                </div>\n            "
        + "</div></div>"
        + "<div class=\"gantt-dependencies\"><h3>Dependências</h3>"
        + "\n                    <div class=\"gantt-dependency\">\n                        <span>A</span>\n                        <span class=\"gantt-dependency-arrow\">→</span>\n                        <span>B</span>\n                    </div>\n                "
        + "</div>"
        + legend().as_str();
    assert_eq!(html, expected);
}

#[test]
fn a_chart_that_hides_dependencies_and_ends_before_it_starts_has_no_days() {
    let config = GanttConfig::new("P".to_string(), day(2024, 3, 2), day(2024, 3, 1)).with_dependencies(false);
    let deps = vec![GanttDependency {
        from_task: "A".to_string(),
        to_task: "B".to_string(),
        dependency_type: DependencyType::FinishToStart,
    }];
    let html = chart_html(&config, &vec![], &deps);
    let expected = String::new()
        + "\n<div class=\"gantt-container\">\n    <div class=\"gantt-header\">P</div>\n    <div class=\"gantt-timeline\">\n"
        + "</div><div class=\"gantt-tasks\">"
        + "</div></div>"
        + legend().as_str();
    assert_eq!(html, expected);
}
