use project_domain::dates::Date;
use project_domain::project_management::advanced_dependencies::{
    AdvancedDependency, AdvancedDependencyGraph, DependencyType, LagType, TaskNode,
};
use project_domain::project_management::gantt_chart::{
    gantt_dependencies, gantt_rows, longest_task_index, matches_filters, GanttConfig, GanttPagination, GanttViewType,
    TaskStatus,
};

fn day(y: i32, m: u32, d: u32) -> Date {
    Date::from_ymd_opt(y, m, d).unwrap()
}

#[test]
fn test_gantt_config_creation() {
    let start_date = day(2024, 1, 1);
    let end_date = day(2024, 12, 31);

    let config = GanttConfig::new("Test Project".to_string(), start_date, end_date);

    assert_eq!(config.title, "Test Project");
    assert_eq!(config.start_date, start_date);
    assert_eq!(config.end_date, end_date);
    assert_eq!(config.view_type, GanttViewType::Days);
    assert!(config.show_dependencies);
    assert!(config.show_resources);
    assert!(config.show_progress);
}

#[test]
fn test_gantt_config_builder() {
    let start_date = day(2024, 1, 1);
    let end_date = day(2024, 12, 31);

    let config = GanttConfig::new("Test Project".to_string(), start_date, end_date)
        .with_view_type(GanttViewType::Weeks)
        .with_dependencies(false)
        .with_resources(false)
        .with_progress(false)
        .with_dimensions(800, 400);

    assert_eq!(config.view_type, GanttViewType::Weeks);
    assert!(!config.show_dependencies);
    assert!(!config.show_resources);
    assert!(!config.show_progress);
    assert_eq!(config.width, 800);
    assert_eq!(config.height, 400);
}

#[test]
fn gantt_config_dataset_presets() {
    let base = GanttConfig::new("P".to_string(), day(2024, 1, 1), day(2024, 2, 1));
    assert!(!base.enable_pagination);
    assert_eq!(base.tasks_per_page, 50);
    assert_eq!(base.cache_size, 1000);

    let large = base.clone().for_large_dataset();
    assert!(large.enable_pagination && large.enable_virtualization && large.enable_lazy_loading);
    assert_eq!((large.tasks_per_page, large.cache_size), (100, 500));

    let very_large = base.clone().for_very_large_dataset();
    assert_eq!((very_large.tasks_per_page, very_large.cache_size), (50, 200));

    let custom = base.with_pagination(20).with_virtualization(300).with_lazy_loading();
    assert!(custom.enable_pagination && custom.enable_virtualization && custom.enable_lazy_loading);
    assert_eq!((custom.tasks_per_page, custom.cache_size), (20, 300));
    assert_eq!((custom.width, custom.height), (1200, 600));
}

#[test]
fn pages_move_forward_back_and_to_a_given_page() {
    let mut p = GanttPagination::new(0, 25, 10);
    assert_eq!(p.total_pages, 3);
    assert!(!p.previous_page());
    assert!(p.next_page());
    assert_eq!((p.current_page, p.has_next_page, p.has_previous_page), (1, true, true));
    assert!(p.next_page());
    assert_eq!((p.current_page, p.has_next_page), (2, false));
    assert!(!p.next_page());
    assert_eq!(p.get_page_range(), (20, 25));
    assert!(p.previous_page());
    assert_eq!(p.current_page, 1);
    assert!(!p.go_to_page(3));
    assert!(p.go_to_page(0));
    assert_eq!((p.current_page, p.has_previous_page, p.has_next_page), (0, false, true));
}

#[test]
fn the_first_longest_task_is_marked_critical() {
    assert_eq!(longest_task_index(&vec![]), None);
    assert_eq!(longest_task_index(&vec![0, -3]), None);
    assert_eq!(longest_task_index(&vec![2, 5, 5, 1]), Some(1));
    assert_eq!(longest_task_index(&vec![4]), Some(0));
}

#[test]
fn filters_on_state_resource_dates_and_name() {
    let start = day(2024, 1, 10);
    let end = day(2024, 1, 20);
    let res = Some("Alice".to_string());
    let none_status: Option<Vec<TaskStatus>> = None;
    let none_res: Option<Vec<String>> = None;
    let none_text: Option<String> = None;
    assert!(matches_filters(&none_status, &none_res, None, &none_text, TaskStatus::InProgress, &res, start, end, "Design"));
    let only_done = Some(vec![TaskStatus::Completed]);
    assert!(!matches_filters(&only_done, &none_res, None, &none_text, TaskStatus::InProgress, &res, start, end, "Design"));
    let bob = Some(vec!["Bob".to_string()]);
    assert!(!matches_filters(&none_status, &bob, None, &none_text, TaskStatus::InProgress, &res, start, end, "Design"));
    assert!(!matches_filters(&none_status, &bob, None, &none_text, TaskStatus::InProgress, &None, start, end, "Design"));
    let range = Some((day(2024, 1, 1), day(2024, 1, 15)));
    assert!(!matches_filters(&none_status, &none_res, range, &none_text, TaskStatus::InProgress, &res, start, end, "Design"));
    let search = Some("SIGN".to_string());
    assert!(matches_filters(&none_status, &none_res, None, &search, TaskStatus::InProgress, &res, start, end, "Design"));
    let other = Some("build".to_string());
    assert!(!matches_filters(&none_status, &none_res, None, &other, TaskStatus::InProgress, &res, start, end, "Design"));
}

#[test]
fn chart_rows_and_dependencies_come_from_the_graph() {
    let mut graph = AdvancedDependencyGraph::new();
    graph.add_task(TaskNode::new("a".to_string(), "A".to_string(), Some(day(2024, 2, 1)), Some(day(2024, 2, 5)), None));
    graph.add_task(TaskNode::new("b".to_string(), "B".to_string(), None, None, None));
    let dep = AdvancedDependency::new(
        "a".to_string(),
        "b".to_string(),
        DependencyType::StartToStart,
        LagType::zero(),
        "u".to_string(),
        None,
    );
    graph.add_dependency(dep).unwrap();

    let rows = gantt_rows(&graph, day(2024, 1, 1), day(2024, 12, 31));
    assert_eq!(rows.len(), 2);
    assert_eq!(rows[0].status, TaskStatus::InProgress);
    assert_eq!(rows[0].start_date, day(2024, 2, 1));
    assert_eq!(rows[0].dependencies, vec!["b".to_string()]);
    assert_eq!(rows[1].status, TaskStatus::NotStarted);
    assert_eq!((rows[1].start_date, rows[1].end_date), (day(2024, 1, 1), day(2024, 12, 31)));
    assert!(rows[1].dependencies.is_empty());

    let deps = gantt_dependencies(&graph);
    assert_eq!(deps.len(), 1);
    assert_eq!((deps[0].from_task.as_str(), deps[0].to_task.as_str()), ("a", "b"));
    assert_eq!(deps[0].dependency_type, DependencyType::StartToStart);
}

#[test]
fn the_pages_of_a_list_split_it() {
    let total = 23;
    let per = 5;
    let first = GanttPagination::new(0, total, per);
    let mut covered = vec![0u32; total];
    let mut previous_end = 0;
    for page in 0..first.total_pages {
        let p = GanttPagination::new(page, total, per);
        let (start, end) = p.get_page_range();
        assert!(start < end && end <= total && end - start <= per);
        assert!(previous_end <= start);
        previous_end = end;
        for t in start..end {
            covered[t] += 1;
        }
    }
    assert!(covered.iter().all(|c| *c == 1));
}
