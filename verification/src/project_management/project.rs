//! The states, priorities and settings of a project, and durations of work.

use vstd::prelude::*;
use crate::dates::Date;
use crate::errors::DomainError;
use crate::project_management::advanced_dependencies::now_millis;
use crate::project_management::project_new::Task;
use crate::project_management::scenario::uuid7_text;
use crate::text::{all_whitespace, is_blank, str_eq, views};

verus! {

/// The state of a project.
#[derive(Debug, Clone, Copy, PartialEq, Eq, Structural)]
pub enum ProjectStatus {
    Planned,
    InProgress,
    OnHold,
    Completed,
    Cancelled,
}

/// The moves between project states that are allowed: a planned project starts or is
/// cancelled, a running one is put on hold or completed, one on hold resumes or is
/// cancelled; completed and cancelled projects stay as they are.
pub open spec fn transition_allowed(from: ProjectStatus, to: ProjectStatus) -> bool {
    match (from, to) {
        (ProjectStatus::Planned, ProjectStatus::InProgress) => true,
        (ProjectStatus::Planned, ProjectStatus::Cancelled) => true,
        (ProjectStatus::InProgress, ProjectStatus::OnHold) => true,
        (ProjectStatus::InProgress, ProjectStatus::Completed) => true,
        (ProjectStatus::OnHold, ProjectStatus::InProgress) => true,
        (ProjectStatus::OnHold, ProjectStatus::Cancelled) => true,
        _ => false,
    }
}

/// The readable name of a project state.
pub open spec fn project_status_text(s: ProjectStatus) -> Seq<char> {
    match s {
        ProjectStatus::Planned => "Planned"@,
        ProjectStatus::InProgress => "In Progress"@,
        ProjectStatus::OnHold => "On Hold"@,
        ProjectStatus::Completed => "Completed"@,
        ProjectStatus::Cancelled => "Cancelled"@,
    }
}

impl ProjectStatus {
    /// Whether the project has started and is not finished: running or on hold.
    pub fn is_active(&self) -> (b: bool)
        ensures
            b == (*self == ProjectStatus::InProgress || *self == ProjectStatus::OnHold),
    {
        match self {
            ProjectStatus::InProgress | ProjectStatus::OnHold => true,
            _ => false,
        }
    }

    /// Whether the project may move from this state to `new_status`.
    pub fn can_transition_to(&self, new_status: &ProjectStatus) -> (b: bool)
        ensures
            b == transition_allowed(*self, *new_status),
    {
        match (self, new_status) {
            (ProjectStatus::Planned, ProjectStatus::InProgress) => true,
            (ProjectStatus::Planned, ProjectStatus::Cancelled) => true,
            (ProjectStatus::InProgress, ProjectStatus::OnHold) => true,
            (ProjectStatus::InProgress, ProjectStatus::Completed) => true,
            (ProjectStatus::OnHold, ProjectStatus::InProgress) => true,
            (ProjectStatus::OnHold, ProjectStatus::Cancelled) => true,
            (ProjectStatus::Completed, _) => false,
            (ProjectStatus::Cancelled, _) => false,
            _ => false,
        }
    }

    /// The readable name of the state.
    pub fn to_string(&self) -> (s: String)
        ensures
            s@ == project_status_text(*self),
    {
        let t = match self {
            ProjectStatus::Planned => "Planned",
            ProjectStatus::InProgress => "In Progress",
            ProjectStatus::OnHold => "On Hold",
            ProjectStatus::Completed => "Completed",
            ProjectStatus::Cancelled => "Cancelled",
        };
        String::from_str(t)
    }
}

/// Law: a completed or cancelled project can move to no other state, and no state
/// moves to itself.
pub proof fn lemma_final_states(from: ProjectStatus, to: ProjectStatus)
    ensures
        from == ProjectStatus::Completed ==> !transition_allowed(from, to),
        from == ProjectStatus::Cancelled ==> !transition_allowed(from, to),
        !transition_allowed(from, from),
{
}

/// Law: every allowed move leaves the planned state behind for good: no state moves
/// back to `Planned`.
pub proof fn lemma_no_return_to_planned(from: ProjectStatus)
    ensures
        !transition_allowed(from, ProjectStatus::Planned),
{
}

/// The priority of a project.
#[derive(Debug, Clone, Copy, PartialEq, Eq, Structural)]
pub enum ProjectPriority {
    Low,
    Medium,
    High,
    Critical,
}

/// The weight of a priority: 1 for `Low` up to 4 for `Critical`.
pub open spec fn priority_weight(p: ProjectPriority) -> u8 {
    match p {
        ProjectPriority::Low => 1,
        ProjectPriority::Medium => 2,
        ProjectPriority::High => 3,
        ProjectPriority::Critical => 4,
    }
}

impl ProjectPriority {
    /// The weight of the priority.
    pub fn weight(&self) -> (w: u8)
        ensures
            w == priority_weight(*self),
    {
        match self {
            ProjectPriority::Low => 1,
            ProjectPriority::Medium => 2,
            ProjectPriority::High => 3,
            ProjectPriority::Critical => 4,
        }
    }
}

/// Law: a higher priority weighs more.
pub proof fn lemma_weight_order()
    ensures
        priority_weight(ProjectPriority::Low) < priority_weight(ProjectPriority::Medium),
        priority_weight(ProjectPriority::Medium) < priority_weight(ProjectPriority::High),
        priority_weight(ProjectPriority::High) < priority_weight(ProjectPriority::Critical),
{
}

/// The working hours of a project, as `HH:MM` texts.
#[derive(Debug, Clone, PartialEq, Eq)]
pub struct WorkHours {
    pub start: String,
    pub end: String,
}

impl Default for WorkHours {
    fn default() -> (w: Self)
        ensures
            w.start@ == "08:00"@,
            w.end@ == "18:00"@,
    {
        WorkHours { start: String::from_str("08:00"), end: String::from_str("18:00") }
    }
}

/// The vacation allowance of a project.
#[derive(Debug, Clone, Copy, PartialEq, Eq)]
pub struct VacationRules {
    pub allowed_days_per_year: u32,
    pub carry_over_days: u32,
}

impl Default for VacationRules {
    fn default() -> (v: Self)
        ensures
            v.allowed_days_per_year == 20,
            v.carry_over_days == 5,
    {
        VacationRules { allowed_days_per_year: 20, carry_over_days: 5 }
    }
}

/// The settings of a project.
#[derive(Debug, Clone, PartialEq, Eq)]
pub struct ProjectSettings {
    pub timezone: Option<String>,
    pub vacation_rules: Option<VacationRules>,
    pub work_hours: Option<WorkHours>,
}

impl Default for ProjectSettings {
    fn default() -> (s: Self)
        ensures
            s.timezone matches Some(z) && z@ == "UTC"@,
            s.vacation_rules == Some(VacationRules { allowed_days_per_year: 20, carry_over_days: 5 }),
            s.work_hours matches Some(w) && w.start@ == "08:00"@ && w.end@ == "18:00"@,
    {
        ProjectSettings {
            timezone: Some(String::from_str("UTC")),
            vacation_rules: Some(VacationRules::default()),
            work_hours: Some(WorkHours::default()),
        }
    }
}

/// The state of a task of a project.
#[derive(Debug, Clone, Copy, PartialEq, Eq, Structural)]
pub enum TaskStatus {
    NotStarted,
    InProgress,
    OnHold,
    Completed,
    Cancelled,
}

/// The priority of a task of a project.
#[derive(Debug, Clone, Copy, PartialEq, Eq, Structural)]
pub enum TaskPriority {
    Low,
    Medium,
    High,
    Critical,
}

/// An amount of work in hours and minutes.
#[derive(Debug, Clone, Copy, PartialEq, Eq, Structural)]
pub struct Duration {
    pub hours: u32,
    pub minutes: u32,
}

/// The number of minutes of a duration.
pub open spec fn total_minutes(d: Duration) -> int {
    d.hours * 60 + d.minutes
}

impl Duration {
    /// A duration of `hours` hours and `minutes` minutes, taken as given.
    pub fn new(hours: u32, minutes: u32) -> (d: Duration)
        ensures
            d.hours == hours,
            d.minutes == minutes,
    {
        Duration { hours, minutes }
    }

    /// The duration of a number of minutes, with fewer than 60 minutes left over.
    pub fn from_minutes(total: u32) -> (d: Duration)
        ensures
            d.hours == total / 60,
            d.minutes == total % 60,
            total_minutes(d) == total,
            d.minutes < 60,
    {
        Duration { hours: total / 60, minutes: total % 60 }
    }

    /// The number of minutes of the duration.
    pub fn to_minutes(&self) -> (m: u32)
        requires
            total_minutes(*self) <= u32::MAX,
        ensures
            m == total_minutes(*self),
    {
        self.hours * 60 + self.minutes
    }

    /// The sum of two durations, in hours and minutes below 60.
    pub fn add(&self, other: &Duration) -> (d: Duration)
        requires
            total_minutes(*self) + total_minutes(*other) <= u32::MAX,
        ensures
            total_minutes(d) == total_minutes(*self) + total_minutes(*other),
            d.minutes < 60,
    {
        let total = self.to_minutes() + other.to_minutes();
        Duration::from_minutes(total)
    }

    /// The difference of two durations, or an error where `other` is the longer.
    pub fn subtract(&self, other: &Duration) -> (r: Result<Duration, DomainError>)
        requires
            total_minutes(*self) <= u32::MAX,
            total_minutes(*other) <= u32::MAX,
        ensures
            total_minutes(*other) > total_minutes(*self) ==> (r matches Err(e)
                && e.is_validation("duration"@, "Cannot subtract larger duration from smaller duration"@)),
            total_minutes(*other) <= total_minutes(*self) ==> (r matches Ok(d)
                && total_minutes(d) == total_minutes(*self) - total_minutes(*other) && d.minutes < 60),
    {
        let mine = self.to_minutes();
        let theirs = other.to_minutes();
        if theirs > mine {
            return Err(DomainError::validation("duration", "Cannot subtract larger duration from smaller duration"));
        }
        Ok(Duration::from_minutes(mine - theirs))
    }
}

/// Law: subtracting a duration after adding it gives back the minutes one started with.
pub proof fn lemma_add_then_subtract(a: Duration, b: Duration, sum: Duration)
    requires
        total_minutes(sum) == total_minutes(a) + total_minutes(b),
    ensures
        total_minutes(sum) - total_minutes(b) == total_minutes(a),
        total_minutes(b) <= total_minutes(sum),
{
}

/// A resource assigned to a task of a project, for an optional span of days.
#[derive(Debug, Clone, PartialEq, Eq)]
pub struct ResourceAssignment {
    pub resource_id: String,
    pub task_id: String,
    pub allocation_percentage: u8,
    pub start_date: Option<Date>,
    pub end_date: Option<Date>,
}

/// A project with its tasks, each under its code, its resource assignments, each
/// under its key, its settings and its metadata.
#[derive(Debug)]
pub struct Project {
    pub id: String,
    pub code: String,
    pub name: String,
    pub description: Option<String>,
    pub status: ProjectStatus,
    pub priority: ProjectPriority,
    pub start_date: Option<Date>,
    pub end_date: Option<Date>,
    pub actual_start_date: Option<Date>,
    pub actual_end_date: Option<Date>,
    pub company_code: String,
    pub manager_id: Option<String>,
    /// Milliseconds since the Unix epoch.
    pub created_at: i64,
    /// Milliseconds since the Unix epoch.
    pub updated_at: i64,
    pub created_by: String,
    pub tasks: Vec<Task>,
    pub resources: Vec<(String, ResourceAssignment)>,
    pub settings: ProjectSettings,
    pub metadata: Vec<(String, String)>,
}

impl Project {
    /// A planned project of medium priority with the default settings, created now:
    /// refused where the code, then the name, is blank.
    pub fn new(code: String, name: String, company_code: String, created_by: String) -> (r: Result<Project, DomainError>)
        ensures
            all_whitespace(code@) ==> (r matches Err(e) && e.is_validation("code"@, "Project code cannot be empty"@)),
            !all_whitespace(code@) && all_whitespace(name@) ==> (r matches Err(e) && e.is_validation(
                "name"@,
                "Project name cannot be empty"@,
            )),
            !all_whitespace(code@) && !all_whitespace(name@) ==> (r matches Ok(p) && {
                &&& p.id@.len() == 36
                &&& p.code == code && p.name == name && p.company_code == company_code && p.created_by == created_by
                &&& p.description is None && p.manager_id is None
                &&& p.status == ProjectStatus::Planned
                &&& p.priority == ProjectPriority::Medium
                &&& p.start_date is None && p.end_date is None
                &&& p.actual_start_date is None && p.actual_end_date is None
                &&& p.created_at == p.updated_at
                &&& p.tasks@.len() == 0 && p.resources@.len() == 0 && p.metadata@.len() == 0
                &&& p.settings.timezone matches Some(z) && z@ == "UTC"@
                &&& p.settings.vacation_rules == Some(VacationRules { allowed_days_per_year: 20, carry_over_days: 5 })
                &&& p.settings.work_hours matches Some(w) && w.start@ == "08:00"@ && w.end@ == "18:00"@
            }),
    {
        if is_blank(code.as_str()) {
            return Err(DomainError::validation("code", "Project code cannot be empty"));
        }
        if is_blank(name.as_str()) {
            return Err(DomainError::validation("name", "Project name cannot be empty"));
        }
        let now = now_millis();
        Ok(Project {
            id: uuid7_text(),
            code,
            name,
            description: None,
            status: ProjectStatus::Planned,
            priority: ProjectPriority::Medium,
            start_date: None,
            end_date: None,
            actual_start_date: None,
            actual_end_date: None,
            company_code,
            manager_id: None,
            created_at: now,
            updated_at: now,
            created_by,
            tasks: Vec::new(),
            resources: Vec::new(),
            settings: ProjectSettings::default(),
            metadata: Vec::new(),
        })
    }

    /// The code of the project.
    pub fn code(&self) -> (s: &str)
        ensures
            s@ == self.code@,
    {
        self.code.as_str()
    }

    /// The name of the project.
    pub fn name(&self) -> (s: &str)
        ensures
            s@ == self.name@,
    {
        self.name.as_str()
    }

    /// The company of the project.
    pub fn company_code(&self) -> (s: &str)
        ensures
            s@ == self.company_code@,
    {
        self.company_code.as_str()
    }

    /// The state of the project.
    pub fn status(&self) -> (s: ProjectStatus)
        ensures
            s == self.status,
    {
        self.status
    }

    /// The priority of the project.
    pub fn priority(&self) -> (p: ProjectPriority)
        ensures
            p == self.priority,
    {
        self.priority
    }

    /// Who created the project.
    pub fn created_by(&self) -> (s: &str)
        ensures
            s@ == self.created_by@,
    {
        self.created_by.as_str()
    }

    /// The description of the project, if it has one.
    pub fn description(&self) -> (d: Option<&str>)
        ensures
            match self.description {
                Some(x) => d matches Some(y) && y@ == x@,
                None => d is None,
            },
    {
        match &self.description {
            Some(x) => Some(x.as_str()),
            None => None,
        }
    }

    /// The resource assignments, each under its key.
    pub fn resources(&self) -> (r: &Vec<(String, ResourceAssignment)>)
        ensures
            r@ == self.resources@,
    {
        &self.resources
    }

    /// Whether a resource is assigned.
    pub fn has_resources(&self) -> (b: bool)
        ensures
            b == (self.resources@.len() > 0),
    {
        self.resources.len() > 0
    }

    /// Assigns a resource to a task under the key `resource_task`; refused where that
    /// key is taken.
    pub fn assign_resource(&mut self, assignment: ResourceAssignment) -> (r: Result<(), DomainError>)
        ensures
            ({
                let key = assignment.resource_id@ + "_"@ + assignment.task_id@;
                &&& assignment_keys(old(self).resources@).contains(key) ==> (r matches Err(e) && e.is_validation(
                    "resource_assignment"@,
                    crate::project_management::project_new::already_assigned_message(),
                ) && *final(self) == *old(self))
                &&& !assignment_keys(old(self).resources@).contains(key) ==> (r is Ok
                    && final(self).resources@.len() == old(self).resources@.len() + 1
                    && final(self).resources@.drop_last() == old(self).resources@
                    && final(self).resources@.last().0@ == key && final(self).resources@.last().1 == assignment
                    && *final(self) == (Project { resources: final(self).resources, updated_at: final(self).updated_at, ..*old(self) }))
            }),
            keys_unique(assignment_keys(old(self).resources@)) ==> keys_unique(assignment_keys(final(self).resources@)),
    {
        let key = assignment.resource_id.clone().concat("_").concat(assignment.task_id.as_str());
        let ghost keys0 = assignment_keys(self.resources@);
        assert(key@ == assignment.resource_id@ + "_"@ + assignment.task_id@);
        let mut i: usize = 0;
        while i < self.resources.len()
            invariant
                0 <= i <= self.resources@.len(),
                keys0 == assignment_keys(self.resources@),
                keys0 == assignment_keys(old(self).resources@),
                *self == *old(self),
                key@ == assignment.resource_id@ + "_"@ + assignment.task_id@,
                forall|j: int| 0 <= j < i ==> keys0[j] != key@,
            decreases self.resources.len() - i,
        {
            if str_eq(self.resources[i].0.as_str(), key.as_str()) {
                proof {
                    assert(keys0[i as int] == key@);
                    assert(keys0.contains(key@));
                }
                let message = String::from_str("Resource is already assigned to this").concat(" task");
                return Err(DomainError::ValidationError { field: String::from_str("resource_assignment"), message });
            }
            i = i + 1;
        }
        proof {
            if keys0.contains(key@) {
                let j = choose|j: int| 0 <= j < keys0.len() && keys0[j] == key@;
                assert(keys0[j] != key@);
            }
        }
        let ghost r0 = self.resources@;
        self.resources.push((key, assignment));
        proof {
            assert(self.resources@.drop_last() =~= r0);
            assert(assignment_keys(self.resources@) =~= keys0.push(self.resources@.last().0@));
            if keys_unique(keys0) {
                let ks = assignment_keys(self.resources@);
                assert forall|a: int, b: int| 0 <= a < b < ks.len() implies #[trigger] ks[a] != #[trigger] ks[b] by {
                    if b == keys0.len() {
                        assert(ks[a] == keys0[a]);
                        assert(keys0[a] != key@);
                    } else {
                        assert(ks[a] == keys0[a] && ks[b] == keys0[b]);
                    }
                }
            }
        }
        self.updated_at = now_millis();
        Ok(())
    }

    /// Takes off the assignment of the resource to the task, if there is one.
    pub fn remove_resource_assignment(&mut self, resource_id: &str, task_id: &str) -> (r: Result<(), DomainError>)
        ensures
            r is Ok,
            final(self).resources@ == old(self).resources@.filter(
                |e: (String, ResourceAssignment)| e.0@ != resource_id@ + "_"@ + task_id@,
            ),
            *final(self) == (Project { resources: final(self).resources, updated_at: final(self).updated_at, ..*old(self) }),
    {
        let key = String::from_str(resource_id).concat("_").concat(task_id);
        let ghost r0 = self.resources@;
        let mut kept: Vec<(String, ResourceAssignment)> = Vec::new();
        let mut i: usize = 0;
        while i < self.resources.len()
            invariant
                0 <= i <= self.resources@.len(),
                self.resources@ == r0,
                kept@ == r0.take(i as int).filter(|e: (String, ResourceAssignment)| e.0@ != key@),
            decreases self.resources.len() - i,
        {
            proof {
                let before = r0.take(i as int);
                assert(r0.take(i as int + 1) =~= before.push(r0[i as int]));
                reveal(Seq::filter);
                assert(before.push(r0[i as int]).drop_last() =~= before);
            }
            if !str_eq(self.resources[i].0.as_str(), key.as_str()) {
                let entry = copy_entry(&self.resources[i]);
                kept.push(entry);
            }
            i = i + 1;
        }
        proof {
            assert(r0.take(r0.len() as int) =~= r0);
        }
        self.resources = kept;
        self.updated_at = now_millis();
        Ok(())
    }

    /// Whether the code holds more than blanks.
    pub fn is_code_valid(&self) -> (b: bool)
        ensures
            b == !all_whitespace(self.code@),
    {
        !is_blank(self.code.as_str())
    }

    /// Whether the name holds more than blanks.
    pub fn is_name_valid(&self) -> (b: bool)
        ensures
            b == !all_whitespace(self.name@),
    {
        !is_blank(self.name.as_str())
    }

    /// Whether the planned start, where both dates are set, is not after the end.
    pub fn is_date_range_valid(&self) -> (b: bool)
        ensures
            b == date_range_valid(self.start_date, self.end_date),
    {
        match (self.start_date, self.end_date) {
            (Some(s), Some(e)) => !e.before(&s),
            _ => true,
        }
    }

    /// The problems of the project, in order: a blank code, a blank name, dates out of
    /// order. Never an error.
    pub fn validate(&self) -> (r: Result<Vec<String>, String>)
        ensures
            r matches Ok(v) && views(v@) == project_problems(*self),
    {
        let mut errors: Vec<String> = Vec::new();
        if !self.is_code_valid() {
            errors.push(String::from_str("Project code cannot be empty"));
        }
        let ghost e1 = views(errors@);
        if !self.is_name_valid() {
            errors.push(String::from_str("Project name cannot be empty"));
            proof {
                assert(views(errors@) =~= e1.push("Project name cannot be empty"@));
            }
        }
        let ghost e2 = views(errors@);
        if !self.is_date_range_valid() {
            errors.push(String::from_str("Project end date must be after start date"));
            proof {
                assert(views(errors@) =~= e2.push("Project end date must be after start date"@));
            }
        }
        proof {
            assert(views(errors@) =~= project_problems(*self));
        }
        Ok(errors)
    }
}

fn copy_entry(e: &(String, ResourceAssignment)) -> (c: (String, ResourceAssignment))
    ensures
        c == *e,
{
    (e.0.clone(), ResourceAssignment {
        resource_id: e.1.resource_id.clone(),
        task_id: e.1.task_id.clone(),
        allocation_percentage: e.1.allocation_percentage,
        start_date: e.1.start_date,
        end_date: e.1.end_date,
    })
}

/// The keys of the assignments, in order.
pub open spec fn assignment_keys(resources: Seq<(String, ResourceAssignment)>) -> Seq<Seq<char>> {
    resources.map_values(|e: (String, ResourceAssignment)| e.0@)
}

/// Whether no key occurs twice.
pub open spec fn keys_unique(keys: Seq<Seq<char>>) -> bool {
    forall|a: int, b: int| 0 <= a < b < keys.len() ==> #[trigger] keys[a] != #[trigger] keys[b]
}

/// Whether the start, where both dates are set, is not after the end.
pub open spec fn date_range_valid(start: Option<Date>, end: Option<Date>) -> bool {
    match (start, end) {
        (Some(s), Some(e)) => s.day() <= e.day(),
        _ => true,
    }
}

/// The problems of a project, in order.
pub open spec fn project_problems(p: Project) -> Seq<Seq<char>> {
    let a = if all_whitespace(p.code@) { seq!["Project code cannot be empty"@] } else { Seq::empty() };
    let b = if all_whitespace(p.name@) { seq!["Project name cannot be empty"@] } else { Seq::empty() };
    let c = if !date_range_valid(p.start_date, p.end_date) {
        seq!["Project end date must be after start date"@]
    } else {
        Seq::empty()
    };
    a + b + c
}

} // verus!
