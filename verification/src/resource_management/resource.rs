//! Resources: people and equipment that work on projects, with their absences,
//! their project and task assignments, and limits on work in progress.

use vstd::prelude::*;
use crate::dates::{local_millis_in_range, Date};
use crate::resource_management::state::{Assigned, Available, Inactive, ResourceState};
use crate::text::{all_whitespace, decimal, has_char, is_blank, u64_to_text};

verus! {

/// The identifiers of resources, as `uuid7` makes them.
#[verifier::external_type_specification]
#[verifier::external_body]
pub struct ExUuid(uuid7::Uuid);

/// `uuid7::uuid7`: a new identifier. Nothing is claimed of it: it depends on the
/// clock and on chance.
#[verifier::external_body]
fn new_uuid() -> (u: uuid7::Uuid) {
    uuid7::uuid7()
}

/// Hours taken off on a day.
#[derive(Debug, PartialEq)]
pub struct TimeOffEntry {
    /// Milliseconds since the Unix epoch.
    pub date: i64,
    pub hours: u32,
    pub description: Option<String>,
}

/// A period of absence.
#[derive(Debug, PartialEq)]
pub struct Period {
    /// Milliseconds since the Unix epoch.
    pub start_date: i64,
    /// Milliseconds since the Unix epoch.
    pub end_date: i64,
    pub approved: bool,
    pub period_type: PeriodType,
    pub is_time_off_compensation: bool,
    pub compensated_hours: Option<u32>,
    pub is_layoff: bool,
}

/// The kind of a period of absence.
#[derive(Debug, Clone, Copy, PartialEq, Eq, Structural)]
pub enum PeriodType {
    Vacation,
    TimeOff,
    BirthdayBreak,
    DayOff,
    SickLeave,
    PersonalLeave,
    TimeOffCompensation,
}

/// The name of a kind of absence.
pub open spec fn period_type_text(p: PeriodType) -> Seq<char> {
    match p {
        PeriodType::Vacation => "Vacation"@,
        PeriodType::TimeOff => "TimeOff"@,
        PeriodType::BirthdayBreak => "BirthdayBreak"@,
        PeriodType::DayOff => "DayOff"@,
        PeriodType::SickLeave => "SickLeave"@,
        PeriodType::PersonalLeave => "PersonalLeave"@,
        PeriodType::TimeOffCompensation => "TimeOffCompensation"@,
    }
}

impl PeriodType {
    /// The name of the kind.
    pub fn to_string(&self) -> (s: String)
        ensures
            s@ == period_type_text(*self),
    {
        let t = match self {
            PeriodType::Vacation => "Vacation",
            PeriodType::TimeOff => "TimeOff",
            PeriodType::BirthdayBreak => "BirthdayBreak",
            PeriodType::DayOff => "DayOff",
            PeriodType::SickLeave => "SickLeave",
            PeriodType::PersonalLeave => "PersonalLeave",
            PeriodType::TimeOffCompensation => "TimeOffCompensation",
        };
        String::from_str(t)
    }
}

/// The assignment of a resource to a project.
#[derive(Debug, PartialEq)]
pub struct ProjectAssignment {
    pub project_id: String,
    /// Milliseconds since the Unix epoch.
    pub start_date: i64,
    /// Milliseconds since the Unix epoch.
    pub end_date: i64,
    pub allocation_percentage: u8,
}

/// Limits on the work in progress of a resource.
#[derive(Debug, Clone, Copy, PartialEq, Eq, Structural)]
pub struct WipLimits {
    pub max_concurrent_tasks: u32,
    pub max_concurrent_projects: u32,
    pub max_allocation_percentage: u8,
    pub enabled: bool,
}

/// Whether limits make sense: some task, some project, and an allocation from 1 to 100 percent.
pub open spec fn wip_limits_valid(l: WipLimits) -> bool {
    l.max_concurrent_tasks > 0 && l.max_concurrent_projects > 0 && l.max_allocation_percentage > 0
        && l.max_allocation_percentage <= 100
}

impl WipLimits {
    /// Enabled limits with the given bounds.
    pub fn new(max_concurrent_tasks: u32, max_concurrent_projects: u32, max_allocation_percentage: u8) -> (l: WipLimits)
        ensures
            l == (WipLimits { max_concurrent_tasks, max_concurrent_projects, max_allocation_percentage, enabled: true }),
    {
        WipLimits { max_concurrent_tasks, max_concurrent_projects, max_allocation_percentage, enabled: true }
    }

    /// Limits that do not apply: the largest bounds, switched off.
    pub fn disabled() -> (l: WipLimits)
        ensures
            l == (WipLimits {
                max_concurrent_tasks: u32::MAX,
                max_concurrent_projects: u32::MAX,
                max_allocation_percentage: 100,
                enabled: false,
            }),
    {
        WipLimits {
            max_concurrent_tasks: u32::MAX,
            max_concurrent_projects: u32::MAX,
            max_allocation_percentage: 100,
            enabled: false,
        }
    }

    /// Whether the limits make sense.
    pub fn is_valid(&self) -> (b: bool)
        ensures
            b == wip_limits_valid(*self),
    {
        self.max_concurrent_tasks > 0 && self.max_concurrent_projects > 0 && self.max_allocation_percentage > 0
            && self.max_allocation_percentage <= 100
    }
}

/// The assignment of a resource to a task.
#[derive(Debug, PartialEq)]
pub struct TaskAssignment {
    pub task_id: String,
    pub project_id: String,
    /// Milliseconds since the Unix epoch.
    pub start_date: i64,
    /// Milliseconds since the Unix epoch.
    pub end_date: i64,
    pub allocation_percentage: u8,
    pub status: TaskAssignmentStatus,
}

/// The state of an assignment to a task.
#[derive(Debug, Clone, Copy, PartialEq, Eq, Structural)]
pub enum TaskAssignmentStatus {
    Active,
    Blocked,
    Completed,
    Cancelled,
}

/// The name of the state of an assignment.
pub open spec fn assignment_status_text(s: TaskAssignmentStatus) -> Seq<char> {
    match s {
        TaskAssignmentStatus::Active => "Active"@,
        TaskAssignmentStatus::Blocked => "Blocked"@,
        TaskAssignmentStatus::Completed => "Completed"@,
        TaskAssignmentStatus::Cancelled => "Cancelled"@,
    }
}

impl TaskAssignmentStatus {
    /// The name of the state.
    pub fn to_string(&self) -> (s: String)
        ensures
            s@ == assignment_status_text(*self),
    {
        let t = match self {
            TaskAssignmentStatus::Active => "Active",
            TaskAssignmentStatus::Blocked => "Blocked",
            TaskAssignmentStatus::Completed => "Completed",
            TaskAssignmentStatus::Cancelled => "Cancelled",
        };
        String::from_str(t)
    }
}

/// How the work in progress of a resource stands against its limits.
#[derive(Debug, Clone, Copy, PartialEq, Eq, Structural)]
pub enum WipStatus {
    WithinLimits,
    NearLimit,
    Exceeded,
    Disabled,
}

/// The name of a work-in-progress state.
pub open spec fn wip_status_text(s: WipStatus) -> Seq<char> {
    match s {
        WipStatus::WithinLimits => "Within Limits"@,
        WipStatus::NearLimit => "Near Limit"@,
        WipStatus::Exceeded => "Exceeded"@,
        WipStatus::Disabled => "Disabled"@,
    }
}

impl WipStatus {
    /// The name of the state.
    pub fn to_string(&self) -> (s: String)
        ensures
            s@ == wip_status_text(*self),
    {
        let t = match self {
            WipStatus::WithinLimits => "Within Limits",
            WipStatus::NearLimit => "Near Limit",
            WipStatus::Exceeded => "Exceeded",
            WipStatus::Disabled => "Disabled",
        };
        String::from_str(t)
    }
}


impl Clone for TimeOffEntry {
    fn clone(&self) -> (r: Self)
        ensures
            r == *self,
    {
        TimeOffEntry { date: self.date, hours: self.hours, description: self.description.clone() }
    }
}

impl Clone for Period {
    fn clone(&self) -> (r: Self)
        ensures
            r == *self,
    {
        Period {
            start_date: self.start_date,
            end_date: self.end_date,
            approved: self.approved,
            period_type: self.period_type,
            is_time_off_compensation: self.is_time_off_compensation,
            compensated_hours: self.compensated_hours,
            is_layoff: self.is_layoff,
        }
    }
}

impl Clone for ProjectAssignment {
    fn clone(&self) -> (r: Self)
        ensures
            r == *self,
    {
        ProjectAssignment {
            project_id: self.project_id.clone(),
            start_date: self.start_date,
            end_date: self.end_date,
            allocation_percentage: self.allocation_percentage,
        }
    }
}

impl Clone for TaskAssignment {
    fn clone(&self) -> (r: Self)
        ensures
            r == *self,
    {
        TaskAssignment {
            task_id: self.task_id.clone(),
            project_id: self.project_id.clone(),
            start_date: self.start_date,
            end_date: self.end_date,
            allocation_percentage: self.allocation_percentage,
            status: self.status,
        }
    }
}

// ============================================================================
// MODEL OF THE WORK IN PROGRESS
// ============================================================================

/// The task assignments that a resource holds.
pub open spec fn assignments_of(o: Option<Vec<TaskAssignment>>) -> Seq<TaskAssignment> {
    match o {
        Some(v) => v@,
        None => Seq::empty(),
    }
}

/// The number of active assignments.
pub open spec fn active_count(s: Seq<TaskAssignment>) -> nat
    decreases s.len(),
{
    if s.len() == 0 {
        0
    } else {
        active_count(s.drop_last()) + if s.last().status == TaskAssignmentStatus::Active { 1nat } else { 0nat }
    }
}

/// The sum of the allocations of the active assignments, in percent.
pub open spec fn active_allocation(s: Seq<TaskAssignment>) -> nat
    decreases s.len(),
{
    if s.len() == 0 {
        0
    } else {
        active_allocation(s.drop_last()) + if s.last().status == TaskAssignmentStatus::Active {
            s.last().allocation_percentage as nat
        } else {
            0nat
        }
    }
}

/// Why limits refuse a new assignment with allocation `pct`, given `active` active
/// assignments holding `alloc` percent: too many tasks, or too much allocation.
pub open spec fn assignment_refusal(limits: Option<WipLimits>, active: u32, alloc: nat, pct: u8) -> Option<Seq<char>> {
    match limits {
        Some(l) => if !l.enabled {
            None
        } else if active >= l.max_concurrent_tasks {
            Some("Resource has reached maximum concurrent tasks limit ("@ + decimal(l.max_concurrent_tasks as nat)
                + "). Current active tasks: "@ + decimal(active as nat))
        } else if alloc + pct > l.max_allocation_percentage {
            Some("Assignment would exceed maximum allocation percentage ("@ + decimal(
                l.max_allocation_percentage as nat,
            ) + "). Current allocation: "@ + decimal(alloc) + "%, New assignment: "@ + decimal(pct as nat) + "%"@)
        } else {
            None
        },
        None => None,
    }
}

/// Whether the work in progress goes beyond enabled limits.
pub open spec fn limits_exceeded(limits: Option<WipLimits>, active: u32, alloc: nat) -> bool {
    match limits {
        Some(l) => l.enabled && (active > l.max_concurrent_tasks || alloc > l.max_allocation_percentage),
        None => false,
    }
}

/// How the work in progress stands: at or past a limit, at three quarters of one
/// (rounded down), or below; `Disabled` without enabled limits.
pub open spec fn wip_status_of(limits: Option<WipLimits>, active: u32, alloc: nat) -> WipStatus {
    match limits {
        Some(l) => if !l.enabled {
            WipStatus::Disabled
        } else if active >= l.max_concurrent_tasks || alloc >= l.max_allocation_percentage {
            WipStatus::Exceeded
        } else if active >= (l.max_concurrent_tasks * 3) / 4 || alloc >= (l.max_allocation_percentage * 3) / 4 {
            WipStatus::NearLimit
        } else {
            WipStatus::WithinLimits
        },
        None => WipStatus::Disabled,
    }
}

/// Whether an e-mail address looks valid: it holds an `@` and a `.` and is longer than
/// five bytes (the byte count taken as a `usize`). No address is valid too.
pub open spec fn email_ok(email: Option<String>) -> bool {
    match email {
        Some(e) => e@.contains('@') && e@.contains('.') && (vstd::utf8::encode_utf8(e@).len() as usize) > 5,
        None => true,
    }
}

/// The position of the first assignment to a task.
pub open spec fn first_assignment(s: Seq<TaskAssignment>, task_id: Seq<char>) -> Option<int>
    decreases s.len(),
{
    if s.len() == 0 {
        None
    } else if s[0].task_id@ == task_id {
        Some(0)
    } else {
        match first_assignment(s.skip(1), task_id) {
            Some(i) => Some(i + 1),
            None => None,
        }
    }
}

// ============================================================================
// RENDERING
// ============================================================================

/// The `Display` text of the `chrono::DateTime<Local>` at an instant given in
/// milliseconds since the Unix epoch. Nothing is claimed of the text: it depends on
/// the machine's time zone.
#[verifier::external_body]
fn local_datetime_text(ms: i64) -> (s: String)
    requires
        local_millis_in_range(ms as int),
{
    chrono::DateTime::from_timestamp_millis(ms).unwrap().with_timezone(&chrono::Local).to_string()
}

/// `true` or `false`.
pub open spec fn bool_text(b: bool) -> Seq<char> {
    if b { "true"@ } else { "false"@ }
}

/// The `Debug` rendering of an optional count.
pub open spec fn opt_count_text(o: Option<u32>) -> Seq<char> {
    match o {
        Some(n) => "Some("@ + decimal(n as nat) + ")"@,
        None => "None"@,
    }
}

/// The rendering of a period, given the texts of its two instants.
pub open spec fn period_text(p: Period, start: Seq<char>, end: Seq<char>) -> Seq<char> {
    "Period { start_date: "@ + start + ", end_date: "@ + end + ", approved: "@ + bool_text(p.approved)
        + ", period_type: "@ + period_type_text(p.period_type) + ", is_time_off_compensation: "@
        + bool_text(p.is_time_off_compensation) + ", compensated_hours: "@ + opt_count_text(p.compensated_hours)
        + ", is_layoff: "@ + bool_text(p.is_layoff) + " }"@
}

/// The rendering of a project assignment, given the texts of its two instants.
pub open spec fn project_assignment_text(a: ProjectAssignment, start: Seq<char>, end: Seq<char>) -> Seq<char> {
    "ProjectAssignment: { project_id: "@ + a.project_id@ + ", start_date: "@ + start + ", end_date: "@ + end + " }"@
}

fn bool_str(b: bool) -> (s: &'static str)
    ensures
        s@ == bool_text(b),
{
    if b { "true" } else { "false" }
}

impl Period {
    /// The rendering of the period with the given texts for its two instants.
    pub fn render(&self, start: &str, end: &str) -> (s: String)
        ensures
            s@ == period_text(*self, start@, end@),
    {
        let hours = match self.compensated_hours {
            Some(n) => String::from_str("Some(").concat(u64_to_text(n as u64).as_str()).concat(")"),
            None => String::from_str("None"),
        };
        String::from_str("Period { start_date: ").concat(start).concat(", end_date: ").concat(end).concat(
            ", approved: ",
        ).concat(bool_str(self.approved)).concat(", period_type: ").concat(self.period_type.to_string().as_str())
            .concat(", is_time_off_compensation: ").concat(bool_str(self.is_time_off_compensation)).concat(
            ", compensated_hours: ",
        ).concat(hours.as_str()).concat(", is_layoff: ").concat(bool_str(self.is_layoff)).concat(" }")
    }

    /// The rendering of the period, its instants shown in local time.
    pub fn to_string(&self) -> (s: String)
        requires
            local_millis_in_range(self.start_date as int),
            local_millis_in_range(self.end_date as int),
        ensures
            exists|a: Seq<char>, b: Seq<char>| s@ == period_text(*self, a, b),
    {
        let start = local_datetime_text(self.start_date);
        let end = local_datetime_text(self.end_date);
        self.render(start.as_str(), end.as_str())
    }
}

impl ProjectAssignment {
    /// The rendering of the assignment with the given texts for its two instants.
    pub fn render(&self, start: &str, end: &str) -> (s: String)
        ensures
            s@ == project_assignment_text(*self, start@, end@),
    {
        String::from_str("ProjectAssignment: { project_id: ").concat(self.project_id.as_str()).concat(
            ", start_date: ",
        ).concat(start).concat(", end_date: ").concat(end).concat(" }")
    }

    /// The rendering of the assignment, its instants shown in local time.
    pub fn to_string(&self) -> (s: String)
        requires
            local_millis_in_range(self.start_date as int),
            local_millis_in_range(self.end_date as int),
        ensures
            exists|a: Seq<char>, b: Seq<char>| s@ == project_assignment_text(*self, a, b),
    {
        let start = local_datetime_text(self.start_date);
        let end = local_datetime_text(self.end_date);
        self.render(start.as_str(), end.as_str())
    }
}

// ============================================================================
// RESOURCES
// ============================================================================

/// A resource in state `S`.
#[derive(Debug, PartialEq)]
pub struct Resource<S: ResourceState> {
    pub id: uuid7::Uuid,
    pub code: String,
    pub name: String,
    pub email: Option<String>,
    pub resource_type: String,
    pub start_date: Option<Date>,
    pub end_date: Option<Date>,
    pub vacations: Option<Vec<Period>>,
    pub time_off_balance: u32,
    pub time_off_history: Option<Vec<TimeOffEntry>>,
    pub wip_limits: Option<WipLimits>,
    pub task_assignments: Option<Vec<TaskAssignment>>,
    pub state: S,
}

/// Whether two resources agree on everything but their state.
pub open spec fn same_record<S: ResourceState, T: ResourceState>(a: Resource<S>, b: Resource<T>) -> bool {
    &&& a.id == b.id
    &&& a.code == b.code
    &&& a.name == b.name
    &&& a.email == b.email
    &&& a.resource_type == b.resource_type
    &&& a.start_date == b.start_date
    &&& a.end_date == b.end_date
    &&& a.vacations == b.vacations
    &&& a.time_off_balance == b.time_off_balance
    &&& a.time_off_history == b.time_off_history
    &&& a.wip_limits == b.wip_limits
    &&& a.task_assignments == b.task_assignments
}

/// The problems that `validate` lists, in order.
pub open spec fn validation_errors<S: ResourceState>(r: Resource<S>) -> Seq<Seq<char>> {
    (if all_whitespace(r.code@) { seq!["Resource code cannot be empty"@] } else { Seq::empty() })
        + (if all_whitespace(r.name@) { seq!["Resource name cannot be empty"@] } else { Seq::empty() })
        + (if !email_ok(r.email) { seq!["Resource email format is invalid"@] } else { Seq::empty() })
        + (if r.wip_limits matches Some(l) && !wip_limits_valid(l) {
        seq!["WIP limits configuration is invalid"@]
    } else {
        Seq::empty()
    })
}

impl Resource<Available> {
    /// A new available resource with a fresh identifier, no absences taken, the
    /// default limits (5 tasks, 3 projects, 100 percent) and no task assignment.
    pub fn new(
        code: String,
        name: String,
        email: Option<String>,
        resource_type: String,
        start_date: Option<Date>,
        end_date: Option<Date>,
        vacations: Option<Vec<Period>>,
        time_off_balance: u32,
    ) -> (r: Resource<Available>)
        ensures
            r.code == code,
            r.name == name,
            r.email == email,
            r.resource_type == resource_type,
            r.start_date == start_date,
            r.end_date == end_date,
            r.vacations == vacations,
            r.time_off_balance == time_off_balance,
            r.time_off_history matches Some(h) && h@.len() == 0,
            r.wip_limits == Some(WipLimits {
                max_concurrent_tasks: 5,
                max_concurrent_projects: 3,
                max_allocation_percentage: 100,
                enabled: true,
            }),
            r.task_assignments matches Some(t) && t@.len() == 0,
    {
        Resource {
            id: new_uuid(),
            code,
            name,
            email,
            resource_type,
            start_date,
            end_date,
            vacations,
            time_off_balance,
            time_off_history: Some(Vec::new()),
            wip_limits: Some(WipLimits::new(5, 3, 100)),
            task_assignments: Some(Vec::new()),
            state: Available,
        }
    }

    /// The resource, assigned to a first project.
    pub fn assign_to_project(self, assignment: ProjectAssignment) -> (r: Resource<Assigned>)
        ensures
            same_record(r, self),
            r.state.project_assignments@ == seq![assignment],
    {
        let mut list: Vec<ProjectAssignment> = Vec::new();
        list.push(assignment);
        proof {
            assert(list@ =~= seq![assignment]);
        }
        Resource {
            id: self.id,
            code: self.code,
            name: self.name,
            email: self.email,
            resource_type: self.resource_type,
            start_date: self.start_date,
            end_date: self.end_date,
            vacations: self.vacations,
            time_off_balance: self.time_off_balance,
            time_off_history: self.time_off_history,
            wip_limits: self.wip_limits,
            task_assignments: self.task_assignments,
            state: Assigned { project_assignments: list },
        }
    }

    /// The resource, inactive.
    pub fn deactivate(self) -> (r: Resource<Inactive>)
        ensures
            same_record(r, self),
    {
        Resource {
            id: self.id,
            code: self.code,
            name: self.name,
            email: self.email,
            resource_type: self.resource_type,
            start_date: self.start_date,
            end_date: self.end_date,
            vacations: self.vacations,
            time_off_balance: self.time_off_balance,
            time_off_history: self.time_off_history,
            wip_limits: self.wip_limits,
            task_assignments: self.task_assignments,
            state: Inactive,
        }
    }
}

impl Resource<Assigned> {
    /// The resource, assigned to one more project.
    pub fn assign_to_another_project(self, assignment: ProjectAssignment) -> (r: Resource<Assigned>)
        ensures
            same_record(r, self),
            r.state.project_assignments@ == self.state.project_assignments@.push(assignment),
    {
        let mut me = self;
        me.state.project_assignments.push(assignment);
        me
    }

    /// The resource, inactive.
    pub fn deactivate(self) -> (r: Resource<Inactive>)
        ensures
            same_record(r, self),
    {
        Resource {
            id: self.id,
            code: self.code,
            name: self.name,
            email: self.email,
            resource_type: self.resource_type,
            start_date: self.start_date,
            end_date: self.end_date,
            vacations: self.vacations,
            time_off_balance: self.time_off_balance,
            time_off_history: self.time_off_history,
            wip_limits: self.wip_limits,
            task_assignments: self.task_assignments,
            state: Inactive,
        }
    }
}

impl<S: ResourceState> Resource<S> {
    /// The code of the resource.
    pub fn code(&self) -> (r: &str)
        ensures
            r@ == self.code@,
    {
        self.code.as_str()
    }

    /// The name of the resource.
    pub fn name(&self) -> (r: &str)
        ensures
            r@ == self.name@,
    {
        self.name.as_str()
    }

    /// The e-mail address of the resource, if it has one.
    pub fn email(&self) -> (r: Option<&str>)
        ensures
            match self.email {
                Some(e) => r matches Some(x) && x@ == e@,
                None => r is None,
            },
    {
        match &self.email {
            Some(e) => Some(e.as_str()),
            None => None,
        }
    }

    /// The type of the resource.
    pub fn resource_type(&self) -> (r: &str)
        ensures
            r@ == self.resource_type@,
    {
        self.resource_type.as_str()
    }

    /// The absences of the resource, if recorded.
    pub fn vacations(&self) -> (r: Option<&[Period]>)
        ensures
            match self.vacations {
                Some(v) => r matches Some(x) && x@ == v@,
                None => r is None,
            },
    {
        match &self.vacations {
            Some(v) => Some(v.as_slice()),
            None => None,
        }
    }

    /// The time taken off by the resource, if recorded.
    pub fn time_off_history(&self) -> (r: Option<&[TimeOffEntry]>)
        ensures
            match self.time_off_history {
                Some(v) => r matches Some(x) && x@ == v@,
                None => r is None,
            },
    {
        match &self.time_off_history {
            Some(v) => Some(v.as_slice()),
            None => None,
        }
    }

    /// The absences of the resource one by one, if recorded.
    pub fn vacations_iter(&self) -> (r: Option<core::slice::Iter<'_, Period>>)
        ensures
            match self.vacations {
                Some(v) => r matches Some(it) && vstd::std_specs::slice::into_iter_elts(it) == v@,
                None => r is None,
            },
    {
        match self.vacations() {
            Some(v) => {
                let it = v.iter();
                proof {
                    broadcast use vstd::std_specs::slice::axiom_spec_slice_iter;
                    assert(vstd::std_specs::iter::IteratorSpec::remaining(&it).unref() =~= v@);
                }
                Some(it)
            },
            None => None,
        }
    }

    /// The time taken off by the resource one by one, if recorded.
    pub fn time_off_history_iter(&self) -> (r: Option<core::slice::Iter<'_, TimeOffEntry>>)
        ensures
            match self.time_off_history {
                Some(v) => r matches Some(it) && vstd::std_specs::slice::into_iter_elts(it) == v@,
                None => r is None,
            },
    {
        match self.time_off_history() {
            Some(v) => {
                let it = v.iter();
                proof {
                    broadcast use vstd::std_specs::slice::axiom_spec_slice_iter;
                    assert(vstd::std_specs::iter::IteratorSpec::remaining(&it).unref() =~= v@);
                }
                Some(it)
            },
            None => None,
        }
    }

    /// The hours of time off left to the resource.
    pub fn time_off_balance(&self) -> (r: u32)
        ensures
            r == self.time_off_balance,
    {
        self.time_off_balance
    }

    /// Whether the code holds something other than whitespace.
    pub fn is_code_valid(&self) -> (b: bool)
        ensures
            b == !all_whitespace(self.code@),
    {
        !is_blank(self.code.as_str())
    }

    /// Whether the name holds something other than whitespace.
    pub fn is_name_valid(&self) -> (b: bool)
        ensures
            b == !all_whitespace(self.name@),
    {
        !is_blank(self.name.as_str())
    }

    /// Whether the e-mail address, if any, looks valid.
    pub fn is_email_valid(&self) -> (b: bool)
        ensures
            b == email_ok(self.email),
    {
        match &self.email {
            Some(e) => has_char(e.as_str(), '@') && has_char(e.as_str(), '.') && e.as_str().len() > 5,
            None => true,
        }
    }

    /// The problems of the resource; always `Ok`, with an empty list when there is none.
    pub fn validate(&self) -> (r: Result<Vec<String>, String>)
        ensures
            r matches Ok(v) && v@.map_values(|s: String| s@) == validation_errors(*self),
    {
        let mut errors: Vec<String> = Vec::new();
        let ghost e0 = errors@.map_values(|s: String| s@);
        if !self.is_code_valid() {
            errors.push(String::from_str("Resource code cannot be empty"));
        }
        let ghost e1 = errors@.map_values(|s: String| s@);
        assert(e1 =~= if all_whitespace(self.code@) { seq!["Resource code cannot be empty"@] } else { Seq::empty() });
        if !self.is_name_valid() {
            errors.push(String::from_str("Resource name cannot be empty"));
        }
        let ghost e2 = errors@.map_values(|s: String| s@);
        assert(e2 =~= e1 + if all_whitespace(self.name@) { seq!["Resource name cannot be empty"@] } else { Seq::empty() });
        if !self.is_email_valid() {
            errors.push(String::from_str("Resource email format is invalid"));
        }
        let ghost e3 = errors@.map_values(|s: String| s@);
        assert(e3 =~= e2 + if !email_ok(self.email) { seq!["Resource email format is invalid"@] } else { Seq::empty() });
        match &self.wip_limits {
            Some(l) => {
                if !l.is_valid() {
                    errors.push(String::from_str("WIP limits configuration is invalid"));
                }
            },
            None => {},
        }
        assert(errors@.map_values(|s: String| s@) =~= validation_errors(*self));
        Ok(errors)
    }

    /// Sets new limits, if they make sense.
    pub fn set_wip_limits(&mut self, limits: WipLimits) -> (r: Result<(), String>)
        ensures
            wip_limits_valid(limits) ==> r is Ok && *final(self) == (Resource { wip_limits: Some(limits), ..*old(self) }),
            !wip_limits_valid(limits) ==> (r matches Err(m) && m@ == "Invalid WIP limits configuration"@
                && *final(self) == *old(self)),
    {
        if !limits.is_valid() {
            return Err(String::from_str("Invalid WIP limits configuration"));
        }
        self.wip_limits = Some(limits);
        Ok(())
    }

    /// The limits of the resource, if set.
    pub fn get_wip_limits(&self) -> (r: Option<&WipLimits>)
        ensures
            match self.wip_limits {
                Some(l) => r matches Some(x) && *x == l,
                None => r is None,
            },
    {
        match &self.wip_limits {
            Some(l) => Some(l),
            None => None,
        }
    }

    /// Switches the limits off.
    pub fn disable_wip_limits(&mut self)
        ensures
            *final(self) == (Resource {
                wip_limits: Some(WipLimits {
                    max_concurrent_tasks: u32::MAX,
                    max_concurrent_projects: u32::MAX,
                    max_allocation_percentage: 100,
                    enabled: false,
                }),
                ..*old(self)
            }),
    {
        self.wip_limits = Some(WipLimits::disabled());
    }

    /// The task assignments of the resource, if recorded.
    pub fn get_task_assignments(&self) -> (r: Option<&[TaskAssignment]>)
        ensures
            match self.task_assignments {
                Some(v) => r matches Some(x) && x@ == v@,
                None => r is None,
            },
    {
        match &self.task_assignments {
            Some(v) => Some(v.as_slice()),
            None => None,
        }
    }

    /// The number of active task assignments, as a `u32`.
    pub fn get_active_task_count(&self) -> (n: u32)
        ensures
            n == active_count(assignments_of(self.task_assignments)) as u32,
    {
        match &self.task_assignments {
            Some(v) => {
                let mut count: usize = 0;
                let mut i: usize = 0;
                while i < v.len()
                    invariant
                        0 <= i <= v.len(),
                        count == active_count(v@.take(i as int)),
                        count <= i,
                    decreases v.len() - i,
                {
                    proof {
                        assert(v@.take(i + 1).drop_last() =~= v@.take(i as int));
                    }
                    if v[i].status == TaskAssignmentStatus::Active {
                        count = count + 1;
                    }
                    i = i + 1;
                }
                proof {
                    assert(v@.take(v.len() as int) =~= v@);
                }
                count as u32
            },
            None => 0,
        }
    }

    /// The sum of the allocations of the active task assignments, in percent.
    pub fn get_current_allocation_percentage(&self) -> (n: u32)
        requires
            active_allocation(assignments_of(self.task_assignments)) <= u32::MAX,
        ensures
            n == active_allocation(assignments_of(self.task_assignments)),
    {
        match &self.task_assignments {
            Some(v) => {
                let mut total: u32 = 0;
                let mut i: usize = 0;
                while i < v.len()
                    invariant
                        0 <= i <= v.len(),
                        total == active_allocation(v@.take(i as int)),
                        active_allocation(v@) <= u32::MAX,
                    decreases v.len() - i,
                {
                    proof {
                        assert(v@.take(i + 1).drop_last() =~= v@.take(i as int));
                        lemma_allocation_prefix(v@, i + 1);
                    }
                    if v[i].status == TaskAssignmentStatus::Active {
                        total = total + v[i].allocation_percentage as u32;
                    }
                    i = i + 1;
                }
                proof {
                    assert(v@.take(v.len() as int) =~= v@);
                }
                total
            },
            None => 0,
        }
    }

    /// Assigns the resource to a task, unless enabled limits refuse it: when the
    /// resource already holds as many active tasks as allowed, or when the new
    /// allocation would take it beyond the allowed percentage.
    pub fn assign_to_task(&mut self, task_assignment: TaskAssignment) -> (r: Result<(), String>)
        requires
            old(self).wip_limits matches Some(l) && l.enabled ==> active_allocation(
                assignments_of(old(self).task_assignments),
            ) + task_assignment.allocation_percentage <= u32::MAX,
        ensures
            match assignment_refusal(
                old(self).wip_limits,
                active_count(assignments_of(old(self).task_assignments)) as u32,
                active_allocation(assignments_of(old(self).task_assignments)),
                task_assignment.allocation_percentage,
            ) {
                Some(m) => r matches Err(e) && e@ == m && *final(self) == *old(self),
                None => r is Ok && final(self).task_assignments is Some
                    && assignments_of(final(self).task_assignments) == assignments_of(old(self).task_assignments).push(task_assignment)
                    && *final(self) == (Resource { task_assignments: final(self).task_assignments, ..*old(self) }),
            },
    {
        match &self.wip_limits {
            Some(limits) => {
                if limits.enabled {
                    let current_active_tasks = self.get_active_task_count();
                    if current_active_tasks >= limits.max_concurrent_tasks {
                        return Err(
                            String::from_str("Resource has reached maximum concurrent tasks limit (")
                                .concat(u64_to_text(limits.max_concurrent_tasks as u64).as_str())
                                .concat("). Current active tasks: ")
                                .concat(u64_to_text(current_active_tasks as u64).as_str()),
                        );
                    }
                    let current_allocation = self.get_current_allocation_percentage();
                    if current_allocation + task_assignment.allocation_percentage as u32
                        > limits.max_allocation_percentage as u32 {
                        return Err(
                            String::from_str("Assignment would exceed maximum allocation percentage (")
                                .concat(u64_to_text(limits.max_allocation_percentage as u64).as_str())
                                .concat("). Current allocation: ")
                                .concat(u64_to_text(current_allocation as u64).as_str())
                                .concat("%, New assignment: ")
                                .concat(u64_to_text(task_assignment.allocation_percentage as u64).as_str())
                                .concat("%"),
                        );
                    }
                }
            },
            None => {},
        }
        let ghost before = assignments_of(self.task_assignments);
        match self.task_assignments.take() {
            Some(list) => {
                let mut list = list;
                list.push(task_assignment);
                self.task_assignments = Some(list);
            },
            None => {
                let mut list: Vec<TaskAssignment> = Vec::new();
                list.push(task_assignment);
                proof {
                    assert(list@ =~= before.push(task_assignment));
                }
                self.task_assignments = Some(list);
            },
        }
        Ok(())
    }

    /// Removes the first assignment to a task; whether there was one.
    pub fn remove_task_assignment(&mut self, task_id: &str) -> (b: bool)
        ensures
            match first_assignment(assignments_of(old(self).task_assignments), task_id@) {
                Some(p) => b && final(self).task_assignments is Some
                    && assignments_of(final(self).task_assignments) == assignments_of(old(self).task_assignments).remove(p)
                    && *final(self) == (Resource { task_assignments: final(self).task_assignments, ..*old(self) }),
                None => !b && assignments_of(final(self).task_assignments) == assignments_of(old(self).task_assignments)
                    && (final(self).task_assignments is Some <==> old(self).task_assignments is Some)
                    && *final(self) == (Resource { task_assignments: final(self).task_assignments, ..*old(self) }),
            },
    {
        let ghost orig = *self;
        match self.task_assignments.take() {
            Some(list) => {
                let mut list = list;
                let ghost s = list@;
                let mut i: usize = 0;
                proof {
                    assert(s.skip(0) =~= s);
                }
                while i < list.len()
                    invariant
                        0 <= i <= list.len(),
                        list@ == s,
                        s == assignments_of(orig.task_assignments),
                        orig == *old(self),
                        *self == (Resource { task_assignments: None::<Vec<TaskAssignment>>, ..orig }),
                        first_assignment(s, task_id@) == match first_assignment(s.skip(i as int), task_id@) {
                            Some(k) => Some(k + i),
                            None => None::<int>,
                        },
                    decreases list.len() - i,
                {
                    proof {
                        assert(s.skip(i as int).skip(1) =~= s.skip(i + 1));
                        assert(s.skip(i as int)[0] == s[i as int]);
                    }
                    if crate::text::str_eq(list[i].task_id.as_str(), task_id) {
                        proof {
                            assert(first_assignment(s.skip(i as int), task_id@) == Some(0int));
                            assert(first_assignment(s, task_id@) == Some(i as int));
                        }
                        let _ = list.remove(i);
                        self.task_assignments = Some(list);
                        return true;
                    }
                    i = i + 1;
                }
                proof {
                    assert(s.skip(list.len() as int) =~= Seq::<TaskAssignment>::empty());
                }
                self.task_assignments = Some(list);
                false
            },
            None => false,
        }
    }

    /// Whether the work in progress goes beyond enabled limits.
    pub fn is_wip_limits_exceeded(&self) -> (b: bool)
        requires
            active_allocation(assignments_of(self.task_assignments)) <= u32::MAX,
        ensures
            b == limits_exceeded(
                self.wip_limits,
                active_count(assignments_of(self.task_assignments)) as u32,
                active_allocation(assignments_of(self.task_assignments)),
            ),
    {
        match &self.wip_limits {
            Some(limits) => {
                if !limits.enabled {
                    return false;
                }
                let active_tasks = self.get_active_task_count();
                let current_allocation = self.get_current_allocation_percentage();
                active_tasks > limits.max_concurrent_tasks || current_allocation > limits.max_allocation_percentage as u32
            },
            None => false,
        }
    }

    /// How the work in progress stands against the limits.
    pub fn get_wip_status(&self) -> (w: WipStatus)
        requires
            active_allocation(assignments_of(self.task_assignments)) <= u32::MAX,
            match self.wip_limits {
                Some(l) => l.enabled ==> l.max_concurrent_tasks * 3 <= u32::MAX,
                None => true,
            },
        ensures
            w == wip_status_of(
                self.wip_limits,
                active_count(assignments_of(self.task_assignments)) as u32,
                active_allocation(assignments_of(self.task_assignments)),
            ),
    {
        match &self.wip_limits {
            Some(limits) => {
                if !limits.enabled {
                    return WipStatus::Disabled;
                }
                let active_tasks = self.get_active_task_count();
                let current_allocation = self.get_current_allocation_percentage();
                if active_tasks >= limits.max_concurrent_tasks || current_allocation >= limits.max_allocation_percentage as u32 {
                    WipStatus::Exceeded
                } else if active_tasks >= limits.max_concurrent_tasks * 3 / 4 || current_allocation >= (
                limits.max_allocation_percentage as u32 * 3 / 4) {
                    WipStatus::NearLimit
                } else {
                    WipStatus::WithinLimits
                }
            },
            None => WipStatus::Disabled,
        }
    }
}

/// The allocation of a prefix of assignments is at most that of the whole list.
proof fn lemma_allocation_prefix(s: Seq<TaskAssignment>, k: int)
    requires
        0 <= k <= s.len(),
    ensures
        active_allocation(s.take(k)) <= active_allocation(s),
    decreases s.len() - k,
{
    if k < s.len() {
        lemma_allocation_prefix(s, k + 1);
        assert(s.take(k + 1).drop_last() =~= s.take(k));
    } else {
        assert(s.take(k) =~= s);
    }
}

/// Law: an assignment that the limits accept keeps a resource within them. If the
/// work in progress was within enabled limits, it still is after the new assignment.
pub proof fn lemma_accepted_assignment_keeps_limits(
    limits: WipLimits,
    before: Seq<TaskAssignment>,
    added: TaskAssignment,
)
    requires
        limits.enabled,
        !limits_exceeded(Some(limits), active_count(before) as u32, active_allocation(before)),
        assignment_refusal(Some(limits), active_count(before) as u32, active_allocation(before), added.allocation_percentage) is None,
        active_count(before) < u32::MAX,
    ensures
        !limits_exceeded(Some(limits), active_count(before.push(added)) as u32, active_allocation(before.push(added))),
{
    assert(before.push(added).drop_last() =~= before);
}

/// A change of state of a resource.
pub trait Transition {
    /// The state that follows.
    type NextState: ResourceState;

    /// The resource in the next state.
    fn transition(self) -> Resource<Self::NextState>;
}

impl Transition for Resource<Available> {
    type NextState = Inactive;

    fn transition(self) -> (r: Resource<Inactive>)
        ensures
            same_record(r, self),
    {
        Resource {
            id: self.id,
            code: self.code,
            name: self.name,
            email: self.email,
            resource_type: self.resource_type,
            start_date: self.start_date,
            end_date: self.end_date,
            vacations: self.vacations,
            time_off_balance: self.time_off_balance,
            time_off_history: self.time_off_history,
            wip_limits: self.wip_limits,
            task_assignments: self.task_assignments,
            state: Inactive,
        }
    }
}

impl Transition for Resource<Inactive> {
    type NextState = Available;

    fn transition(self) -> (r: Resource<Available>)
        ensures
            same_record(r, self),
    {
        Resource {
            id: self.id,
            code: self.code,
            name: self.name,
            email: self.email,
            resource_type: self.resource_type,
            start_date: self.start_date,
            end_date: self.end_date,
            vacations: self.vacations,
            time_off_balance: self.time_off_balance,
            time_off_history: self.time_off_history,
            wip_limits: self.wip_limits,
            task_assignments: self.task_assignments,
            state: Available,
        }
    }
}

} // verus!
