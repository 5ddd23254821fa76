use project_domain::dates::Date;
use project_domain::errors::DomainError;
use project_domain::project_management::resource_allocation::{
    AllocationConflict, AllocationStatus, ConflictSeverity, ConflictType, LeavePeriod, Resolution, Resource,
    ResourceAllocation, ResourceStatus, ResourceType, Skill, SkillLevel,
};

fn day(y: i32, m: u32, d: u32) -> Date {
    Date::from_ymd_opt(y, m, d).unwrap()
}

fn resource() -> Resource {
    Resource::new(
        "RES-001".to_string(),
        "John Doe".to_string(),
        ResourceType::Human,
        "COMP-001".to_string(),
        "user-001".to_string(),
    )
    .unwrap()
}

fn allocation(resource: &str, task: &str, pct: u8, start: Date, end: Option<Date>) -> ResourceAllocation {
    ResourceAllocation::new(
        resource.to_string(),
        task.to_string(),
        "PROJ-001".to_string(),
        pct,
        start,
        end,
        "Developer".to_string(),
        "user-001".to_string(),
    )
    .unwrap()
}

#[test]
fn test_resource_creation() {
    let resource = Resource::new(
        "RES-001".to_string(),
        "John Doe".to_string(),
        ResourceType::Human,
        "COMP-001".to_string(),
        "user-001".to_string(),
    );

    assert!(resource.is_ok());

    let resource = resource.unwrap();
    assert_eq!(resource.code, "RES-001");
    assert_eq!(resource.name, "John Doe");
    assert_eq!(resource.resource_type, ResourceType::Human);
    assert_eq!(resource.company_code, "COMP-001");
    assert_eq!(resource.status, ResourceStatus::Active);
    assert!(resource.skills.is_empty());
}

#[test]
fn test_resource_creation_with_empty_code() {
    let result = Resource::new(
        "".to_string(),
        "John Doe".to_string(),
        ResourceType::Human,
        "COMP-001".to_string(),
        "user-001".to_string(),
    );

    assert!(result.is_err());
}

#[test]
fn test_resource_skill_management() {
    let mut resource = resource();

    let skill = Skill {
        id: "SKILL-001".to_string(),
        name: "Rust Programming".to_string(),
        level: SkillLevel::Advanced,
        years_experience: Some(3),
        certified: true,
    };

    let result = resource.add_skill(skill);
    assert!(result.is_ok());
    assert_eq!(resource.skills.len(), 1);

    assert!(resource.has_skill("Rust Programming", None));
    assert!(resource.has_skill("Rust Programming", Some(SkillLevel::Intermediate)));
    assert!(!resource.has_skill("Rust Programming", Some(SkillLevel::Expert)));

    let result = resource.remove_skill("Rust Programming");
    assert!(result.is_ok());
    assert_eq!(resource.skills.len(), 0);
}

#[test]
fn test_resource_availability() {
    let resource = resource();
    let today = Date::today();
    let is_available = today.weekday_from_monday() < 5;
    assert_eq!(resource.is_available_on_date(today), is_available);
}

#[test]
fn test_resource_allocation_creation() {
    let today = Date::today();
    let allocation = ResourceAllocation::new(
        "RES-001".to_string(),
        "TASK-001".to_string(),
        "PROJ-001".to_string(),
        80,
        today,
        Some(today.checked_add_days(30).unwrap()),
        "Developer".to_string(),
        "user-001".to_string(),
    );

    assert!(allocation.is_ok());

    let allocation = allocation.unwrap();
    assert_eq!(allocation.resource_id, "RES-001");
    assert_eq!(allocation.task_id, "TASK-001");
    assert_eq!(allocation.allocation_percentage, 80);
    assert_eq!(allocation.status, AllocationStatus::Planned);
}

#[test]
fn test_resource_allocation_invalid_percentage() {
    let today = Date::today();
    let make = |pct: u8| {
        ResourceAllocation::new(
            "RES-001".to_string(),
            "TASK-001".to_string(),
            "PROJ-001".to_string(),
            pct,
            today,
            None,
            "Developer".to_string(),
            "user-001".to_string(),
        )
    };
    assert!(make(0).is_err());
    assert!(make(150).is_err());
}

#[test]
fn test_resource_allocation_lifecycle() {
    let mut allocation = allocation("RES-001", "TASK-001", 80, Date::today(), None);

    let result = allocation.activate();
    assert!(result.is_ok());
    assert_eq!(allocation.status, AllocationStatus::Active);

    let result = allocation.complete();
    assert!(result.is_ok());
    assert_eq!(allocation.status, AllocationStatus::Completed);

    let result = allocation.cancel();
    assert!(result.is_err());
}

#[test]
fn test_allocation_overlap_detection() {
    let today = Date::today();
    let allocation1 = allocation("RES-001", "TASK-001", 80, today, Some(today.checked_add_days(10).unwrap()));
    let allocation2 = allocation(
        "RES-001",
        "TASK-002",
        60,
        today.checked_add_days(5).unwrap(),
        Some(today.checked_add_days(15).unwrap()),
    );
    assert!(allocation1.is_overlapping(&allocation2));

    let allocation3 = allocation("RES-002", "TASK-003", 100, today, Some(today.checked_add_days(10).unwrap()));
    assert!(!allocation1.is_overlapping(&allocation3));
}

#[test]
fn test_allocation_conflict_detection() {
    let mut conflict = AllocationConflict::new(
        "RES-001".to_string(),
        ConflictType::OverAllocation,
        ConflictSeverity::High,
        "Resource allocated more than 100%".to_string(),
        vec!["ALLOC-001".to_string(), "ALLOC-002".to_string()],
        Vec::new(),
    );

    assert!(conflict.requires_immediate_action());
    assert!(!conflict.is_critical());

    let resolution = Resolution::new(
        "Reduce allocation percentage".to_string(),
        "Adjust allocation percentages to stay within 100%".to_string(),
        Some(2 * 3_600_000),
        Some(86_400_000),
    );

    conflict.add_resolution(resolution);
    assert_eq!(conflict.suggested_resolutions.len(), 1);
}

#[test]
fn adding_a_skill_twice_is_refused_and_removing_a_missing_one_too() {
    let mut resource = resource();
    let skill = || Skill {
        id: "S".to_string(),
        name: "Rust".to_string(),
        level: SkillLevel::Beginner,
        years_experience: None,
        certified: false,
    };
    resource.add_skill(skill()).unwrap();
    assert_eq!(
        resource.add_skill(skill()),
        Err(DomainError::ValidationError {
            field: "skill".to_string(),
            message: "Skill already exists for this resource".to_string()
        })
    );
    assert!(resource.remove_skill("Go").is_err());
}

#[test]
fn holidays_leaves_and_weekends_make_a_resource_unavailable() {
    let mut resource = resource();
    let monday = day(2024, 3, 4);
    let saturday = day(2024, 3, 9);
    assert!(resource.is_available_on_date(monday));
    assert!(!resource.is_available_on_date(saturday));
    resource.availability.holidays.push(monday);
    assert!(!resource.is_available_on_date(monday));
    let tuesday = day(2024, 3, 5);
    resource.availability.leaves.push(LeavePeriod {
        start_date: tuesday,
        end_date: day(2024, 3, 6),
        reason: "Leave".to_string(),
        allocation_percentage: 0,
    });
    assert!(!resource.is_available_on_date(tuesday));
    assert!(resource.is_available_on_date(day(2024, 3, 7)));
    assert!(resource.can_allocate_percentage(100));
    assert!(!resource.can_allocate_percentage(101));
}

#[test]
fn the_total_counts_active_overlapping_allocations_of_the_resource() {
    let start = day(2024, 3, 1);
    let mine = allocation("R", "T1", 50, start, Some(day(2024, 3, 10)));
    let mut other = allocation("R", "T2", 30, day(2024, 3, 5), Some(day(2024, 3, 20)));
    other.activate().unwrap();
    let planned = allocation("R", "T3", 40, start, Some(day(2024, 3, 10)));
    let mut elsewhere = allocation("Q", "T4", 40, start, Some(day(2024, 3, 10)));
    elsewhere.activate().unwrap();
    let mut later = allocation("R", "T5", 10, day(2024, 3, 10), None);
    later.activate().unwrap();
    let others = vec![other, planned, elsewhere, later];
    assert_eq!(mine.get_total_allocation_percentage(&others), 80);
}
