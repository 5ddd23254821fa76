//! A project with its own tasks and resource assignments: the tasks move through
//! their states, and the project starts only when it is ready and finishes only
//! when every task is done.

use vstd::prelude::*;
use crate::dates::Date;
use crate::errors::DomainError;
use crate::project_management::advanced_dependencies::now_millis;
use crate::project_management::project::{Duration, ProjectPriority, ProjectStatus, TaskPriority, TaskStatus, transition_allowed};
use crate::project_management::scenario::uuid7_text;
use crate::text::{all_whitespace, is_blank, str_eq};

verus! {

// ============================================================================
// TASKS
// ============================================================================

/// The moves between task states that are allowed: a task not started starts or is
/// cancelled, a running one is put on hold or completed, one on hold resumes or is
/// cancelled; completed and cancelled tasks stay as they are.
pub open spec fn task_transition_allowed(from: TaskStatus, to: TaskStatus) -> bool {
    match (from, to) {
        (TaskStatus::NotStarted, TaskStatus::InProgress) => true,
        (TaskStatus::NotStarted, TaskStatus::Cancelled) => true,
        (TaskStatus::InProgress, TaskStatus::OnHold) => true,
        (TaskStatus::InProgress, TaskStatus::Completed) => true,
        (TaskStatus::OnHold, TaskStatus::InProgress) => true,
        (TaskStatus::OnHold, TaskStatus::Cancelled) => true,
        _ => false,
    }
}

/// The `Debug` name of a task state.
pub open spec fn task_status_name(s: TaskStatus) -> Seq<char> {
    match s {
        TaskStatus::NotStarted => "NotStarted"@,
        TaskStatus::InProgress => "InProgress"@,
        TaskStatus::OnHold => "OnHold"@,
        TaskStatus::Completed => "Completed"@,
        TaskStatus::Cancelled => "Cancelled"@,
    }
}

/// The `Debug` name of a project state.
pub open spec fn project_status_name(s: ProjectStatus) -> Seq<char> {
    match s {
        ProjectStatus::Planned => "Planned"@,
        ProjectStatus::InProgress => "InProgress"@,
        ProjectStatus::OnHold => "OnHold"@,
        ProjectStatus::Completed => "Completed"@,
        ProjectStatus::Cancelled => "Cancelled"@,
    }
}

fn task_status_debug(s: TaskStatus) -> (r: &'static str)
    ensures
        r@ == task_status_name(s),
{
    match s {
        TaskStatus::NotStarted => "NotStarted",
        TaskStatus::InProgress => "InProgress",
        TaskStatus::OnHold => "OnHold",
        TaskStatus::Completed => "Completed",
        TaskStatus::Cancelled => "Cancelled",
    }
}

fn project_status_debug(s: ProjectStatus) -> (r: &'static str)
    ensures
        r@ == project_status_name(s),
{
    match s {
        ProjectStatus::Planned => "Planned",
        ProjectStatus::InProgress => "InProgress",
        ProjectStatus::OnHold => "OnHold",
        ProjectStatus::Completed => "Completed",
        ProjectStatus::Cancelled => "Cancelled",
    }
}

/// The message of a refused move between states.
pub open spec fn refused_move(from: Seq<char>, to: Seq<char>) -> Seq<char> {
    "Cannot transition from "@ + from + " to "@ + to
}

/// The sequence without the items equal to `x`, in order.
pub open spec fn without(s: Seq<Seq<char>>, x: Seq<char>) -> Seq<Seq<char>> {
    s.filter(|y: Seq<char>| y != x)
}

/// The views of a list of strings.
pub open spec fn ids(v: Seq<String>) -> Seq<Seq<char>> {
    v.map_values(|s: String| s@)
}

/// A task of a project.
#[derive(Debug)]
pub struct Task {
    pub id: String,
    pub name: String,
    pub description: Option<String>,
    pub status: TaskStatus,
    pub priority: TaskPriority,
    pub start_date: Option<Date>,
    pub end_date: Option<Date>,
    pub actual_start_date: Option<Date>,
    pub actual_end_date: Option<Date>,
    pub estimated_effort: Option<Duration>,
    pub actual_effort: Option<Duration>,
    pub remaining_effort: Option<Duration>,
    pub predecessors: Vec<String>,
    pub successors: Vec<String>,
    pub assigned_resources: Vec<String>,
    /// Milliseconds since the Unix epoch.
    pub created_at: i64,
    /// Milliseconds since the Unix epoch.
    pub updated_at: i64,
    pub created_by: String,
}

impl Clone for Task {
    fn clone(&self) -> (r: Self)
        ensures
            r.id@ == self.id@,
            r.name@ == self.name@,
            r.status == self.status,
            r.priority == self.priority,
            r.start_date == self.start_date,
            r.end_date == self.end_date,
            r.actual_start_date == self.actual_start_date,
            r.actual_end_date == self.actual_end_date,
            ids(r.predecessors@) == ids(self.predecessors@),
            ids(r.assigned_resources@) == ids(self.assigned_resources@),
    {
        Task {
            id: self.id.clone(),
            name: self.name.clone(),
            description: self.description.clone(),
            status: self.status,
            priority: self.priority,
            start_date: self.start_date,
            end_date: self.end_date,
            actual_start_date: self.actual_start_date,
            actual_end_date: self.actual_end_date,
            estimated_effort: self.estimated_effort,
            actual_effort: self.actual_effort,
            remaining_effort: self.remaining_effort,
            predecessors: copy_list(&self.predecessors),
            successors: copy_list(&self.successors),
            assigned_resources: copy_list(&self.assigned_resources),
            created_at: self.created_at,
            updated_at: self.updated_at,
            created_by: self.created_by.clone(),
        }
    }
}

fn copy_list(v: &Vec<String>) -> (r: Vec<String>)
    ensures
        ids(r@) == ids(v@),
{
    let mut r: Vec<String> = Vec::new();
    let mut i: usize = 0;
    while i < v.len()
        invariant
            0 <= i <= v@.len(),
            ids(r@) =~= ids(v@.take(i as int)),
        decreases v.len() - i,
    {
        let ghost r0 = r@;
        r.push(v[i].clone());
        proof {
            assert(v@.take(i as int + 1) =~= v@.take(i as int).push(v@[i as int]));
            assert(ids(r@) =~= ids(r0).push(v@[i as int]@));
        }
        i = i + 1;
    }
    proof {
        assert(v@.take(v@.len() as int) =~= v@);
    }
    r
}

/// Whether a list of strings holds one equal to `x`.
fn list_contains(v: &Vec<String>, x: &str) -> (b: bool)
    ensures
        b == ids(v@).contains(x@),
{
    let mut i: usize = 0;
    while i < v.len()
        invariant
            0 <= i <= v@.len(),
            forall|k: int| 0 <= k < i ==> v@[k]@ != x@,
        decreases v.len() - i,
    {
        if str_eq(v[i].as_str(), x) {
            proof {
                assert(ids(v@)[i as int] == x@);
            }
            return true;
        }
        i = i + 1;
    }
    proof {
        if ids(v@).contains(x@) {
            let k = choose|k: int| 0 <= k < ids(v@).len() && ids(v@)[k] == x@;
            assert(v@[k]@ == x@);
        }
    }
    false
}

/// The list without the strings equal to `x`, in order.
fn list_without(v: &Vec<String>, x: &str) -> (r: Vec<String>)
    ensures
        ids(r@) == without(ids(v@), x@),
{
    let mut r: Vec<String> = Vec::new();
    let mut i: usize = 0;
    while i < v.len()
        invariant
            0 <= i <= v@.len(),
            ids(r@) =~= without(ids(v@).take(i as int), x@),
        decreases v.len() - i,
    {
        let ghost before = ids(v@).take(i as int);
        proof {
            assert(ids(v@).take(i as int + 1) =~= before.push(v@[i as int]@));
            before.filter_lemma(|y: Seq<char>| y != x@);
            reveal(Seq::filter);
            assert(without(before.push(v@[i as int]@), x@) == if v@[i as int]@ != x@ {
                without(before, x@).push(v@[i as int]@)
            } else {
                without(before, x@)
            }) by {
                assert(before.push(v@[i as int]@).drop_last() =~= before);
            }
        }
        if !str_eq(v[i].as_str(), x) {
            let ghost r0 = r@;
            r.push(v[i].clone());
            proof {
                assert(ids(r@) =~= ids(r0).push(v@[i as int]@));
            }
        }
        i = i + 1;
    }
    proof {
        assert(ids(v@).take(v@.len() as int) =~= ids(v@));
    }
    r
}

impl Task {
    /// Whether the task is late on the given day: it ended after its planned end, or,
    /// not yet ended, the day lies after its planned end. Without a planned end it
    /// is not late.
    pub open spec fn delayed_on(self, today: int) -> bool {
        match (self.end_date, self.actual_end_date) {
            (Some(planned), Some(actual)) => actual.day() > planned.day(),
            (Some(planned), None) => today > planned.day(),
            _ => false,
        }
    }

    /// A task not started, of medium priority, named `name`; refused where the name
    /// is blank.
    pub fn new(name: String, created_by: String) -> (r: Result<Task, DomainError>)
        ensures
            all_whitespace(name@) ==> (r matches Err(e) && e.is_validation("name"@, "Task name cannot be empty"@)),
            !all_whitespace(name@) ==> (r matches Ok(t) && {
                &&& t.id@.len() == 36
                &&& t.name == name
                &&& t.description is None
                &&& t.status == TaskStatus::NotStarted
                &&& t.priority == TaskPriority::Medium
                &&& t.start_date is None && t.end_date is None
                &&& t.actual_start_date is None && t.actual_end_date is None
                &&& t.estimated_effort is None && t.actual_effort is None && t.remaining_effort is None
                &&& t.predecessors@.len() == 0 && t.successors@.len() == 0 && t.assigned_resources@.len() == 0
                &&& t.created_at == t.updated_at
                &&& t.created_by == created_by
            }),
    {
        if is_blank(name.as_str()) {
            return Err(DomainError::validation("name", "Task name cannot be empty"));
        }
        let now = now_millis();
        Ok(Task {
            id: uuid7_text(),
            name,
            description: None,
            status: TaskStatus::NotStarted,
            priority: TaskPriority::Medium,
            start_date: None,
            end_date: None,
            actual_start_date: None,
            actual_end_date: None,
            estimated_effort: None,
            actual_effort: None,
            remaining_effort: None,
            predecessors: Vec::new(),
            successors: Vec::new(),
            assigned_resources: Vec::new(),
            created_at: now,
            updated_at: now,
            created_by,
        })
    }

    /// Whether the task may move from its state to `new_status`.
    pub fn can_transition_to(&self, new_status: &TaskStatus) -> (b: bool)
        ensures
            b == task_transition_allowed(self.status, *new_status),
    {
        match (self.status, *new_status) {
            (TaskStatus::NotStarted, TaskStatus::InProgress) => true,
            (TaskStatus::NotStarted, TaskStatus::Cancelled) => true,
            (TaskStatus::InProgress, TaskStatus::OnHold) => true,
            (TaskStatus::InProgress, TaskStatus::Completed) => true,
            (TaskStatus::OnHold, TaskStatus::InProgress) => true,
            (TaskStatus::OnHold, TaskStatus::Cancelled) => true,
            _ => false,
        }
    }

    /// Moves the task to `new_status` on the day `today`, at the instant `now`, where
    /// that move is allowed. Starting records `today` as the actual start; completing
    /// records `today` as the actual end and leaves no effort remaining; the task is
    /// marked updated at `now`. A refused move changes nothing.
    pub fn change_status_on(&mut self, new_status: TaskStatus, today: Date, now: i64) -> (r: Result<(), DomainError>)
        ensures
            !task_transition_allowed(old(self).status, new_status) ==> (r matches Err(e) && e.is_generic(
                refused_move(task_status_name(old(self).status), task_status_name(new_status)),
            ) && *final(self) == *old(self)),
            task_transition_allowed(old(self).status, new_status) ==> r is Ok && final(self).status == new_status
                && *final(self) == (Task {
                    status: new_status,
                    actual_start_date: final(self).actual_start_date,
                    actual_end_date: final(self).actual_end_date,
                    remaining_effort: final(self).remaining_effort,
                    updated_at: final(self).updated_at,
                    ..*old(self)
                })
                && final(self).updated_at == now
                && (new_status == TaskStatus::InProgress ==> final(self).actual_start_date == Some(today)
                    && final(self).actual_end_date == old(self).actual_end_date
                    && final(self).remaining_effort == old(self).remaining_effort)
                && (new_status == TaskStatus::Completed ==> final(self).actual_end_date == Some(today)
                    && final(self).actual_start_date == old(self).actual_start_date
                    && final(self).remaining_effort == Some(Duration { hours: 0, minutes: 0 }))
                && (new_status != TaskStatus::InProgress && new_status != TaskStatus::Completed
                    ==> final(self).actual_start_date == old(self).actual_start_date
                    && final(self).actual_end_date == old(self).actual_end_date
                    && final(self).remaining_effort == old(self).remaining_effort),
    {
        if !self.can_transition_to(&new_status) {
            let message = String::from_str("Cannot transition from ").concat(task_status_debug(self.status)).concat(
                " to ",
            ).concat(task_status_debug(new_status));
            return Err(DomainError::Generic { message });
        }
        match new_status {
            TaskStatus::InProgress => {
                self.actual_start_date = Some(today);
            },
            TaskStatus::Completed => {
                self.actual_end_date = Some(today);
                self.remaining_effort = Some(Duration::new(0, 0));
            },
            _ => {},
        }
        self.status = new_status;
        self.updated_at = now;
        Ok(())
    }

    /// Moves the task to `new_status` where that move is allowed. Starting records
    /// today as the actual start; completing records today as the actual end and
    /// leaves no effort remaining. A refused move changes nothing.
    pub fn change_status(&mut self, new_status: TaskStatus) -> (r: Result<(), DomainError>)
        ensures
            !task_transition_allowed(old(self).status, new_status) ==> (r matches Err(e) && e.is_generic(
                refused_move(task_status_name(old(self).status), task_status_name(new_status)),
            ) && *final(self) == *old(self)),
            task_transition_allowed(old(self).status, new_status) ==> r is Ok && final(self).status == new_status
                && *final(self) == (Task {
                    status: new_status,
                    actual_start_date: final(self).actual_start_date,
                    actual_end_date: final(self).actual_end_date,
                    remaining_effort: final(self).remaining_effort,
                    updated_at: final(self).updated_at,
                    ..*old(self)
                })
                && (new_status == TaskStatus::InProgress ==> (final(self).actual_start_date matches Some(d) && d.wf())
                    && final(self).actual_end_date == old(self).actual_end_date
                    && final(self).remaining_effort == old(self).remaining_effort)
                && (new_status == TaskStatus::Completed ==> (final(self).actual_end_date matches Some(d) && d.wf())
                    && final(self).actual_start_date == old(self).actual_start_date
                    && final(self).remaining_effort == Some(Duration { hours: 0, minutes: 0 }))
                && (new_status != TaskStatus::InProgress && new_status != TaskStatus::Completed
                    ==> final(self).actual_start_date == old(self).actual_start_date
                    && final(self).actual_end_date == old(self).actual_end_date
                    && final(self).remaining_effort == old(self).remaining_effort),
    {
        let today = Date::today();
        let now = now_millis();
        self.change_status_on(new_status, today, now)
    }

    /// Records a task that this one depends on, once; refused where it is the task
    /// itself.
    pub fn add_predecessor(&mut self, task_id: String) -> (r: Result<(), DomainError>)
        ensures
            task_id@ == old(self).id@ ==> (r matches Err(e) && e.is_validation(
                "predecessor"@,
                "Task cannot depend on itself"@,
            ) && *final(self) == *old(self)),
            task_id@ != old(self).id@ ==> r is Ok && ids(final(self).predecessors@) == if ids(
                old(self).predecessors@,
            ).contains(task_id@) {
                ids(old(self).predecessors@)
            } else {
                ids(old(self).predecessors@).push(task_id@)
            } && *final(self) == (Task {
                predecessors: final(self).predecessors,
                updated_at: final(self).updated_at,
                ..*old(self)
            }),
    {
        if str_eq(task_id.as_str(), self.id.as_str()) {
            return Err(DomainError::validation("predecessor", "Task cannot depend on itself"));
        }
        if !list_contains(&self.predecessors, task_id.as_str()) {
            let ghost p0 = self.predecessors@;
            self.predecessors.push(task_id);
            proof {
                assert(ids(self.predecessors@) =~= ids(p0).push(self.predecessors@.last()@));
            }
            self.updated_at = now_millis();
        }
        Ok(())
    }

    /// Forgets a predecessor; refused while the task is in progress.
    pub fn remove_predecessor(&mut self, task_id: &str) -> (r: Result<(), DomainError>)
        ensures
            old(self).status == TaskStatus::InProgress ==> (r matches Err(e) && e.is_generic(
                "Cannot remove predecessor from task that is in progress"@,
            ) && *final(self) == *old(self)),
            old(self).status != TaskStatus::InProgress ==> r is Ok && ids(final(self).predecessors@) == without(
                ids(old(self).predecessors@),
                task_id@,
            ) && *final(self) == (Task {
                predecessors: final(self).predecessors,
                updated_at: final(self).updated_at,
                ..*old(self)
            }),
    {
        if self.status == TaskStatus::InProgress {
            return Err(DomainError::generic("Cannot remove predecessor from task that is in progress"));
        }
        self.predecessors = list_without(&self.predecessors, task_id);
        self.updated_at = now_millis();
        Ok(())
    }

    /// Assigns a resource to the task, once.
    pub fn assign_resource(&mut self, resource_id: String) -> (r: Result<(), DomainError>)
        ensures
            r is Ok,
            ids(final(self).assigned_resources@) == if ids(old(self).assigned_resources@).contains(resource_id@) {
                ids(old(self).assigned_resources@)
            } else {
                ids(old(self).assigned_resources@).push(resource_id@)
            },
            *final(self) == (Task {
                assigned_resources: final(self).assigned_resources,
                updated_at: final(self).updated_at,
                ..*old(self)
            }),
    {
        if !list_contains(&self.assigned_resources, resource_id.as_str()) {
            let ghost a0 = self.assigned_resources@;
            self.assigned_resources.push(resource_id);
            proof {
                assert(ids(self.assigned_resources@) =~= ids(a0).push(self.assigned_resources@.last()@));
            }
            self.updated_at = now_millis();
        }
        Ok(())
    }

    /// Takes a resource off the task; refused while the task is in progress.
    pub fn remove_resource(&mut self, resource_id: &str) -> (r: Result<(), DomainError>)
        ensures
            old(self).status == TaskStatus::InProgress ==> (r matches Err(e) && e.is_generic(
                "Cannot remove resource from task that is in progress"@,
            ) && *final(self) == *old(self)),
            old(self).status != TaskStatus::InProgress ==> r is Ok && ids(final(self).assigned_resources@)
                == without(ids(old(self).assigned_resources@), resource_id@) && *final(self) == (Task {
                assigned_resources: final(self).assigned_resources,
                updated_at: final(self).updated_at,
                ..*old(self)
            }),
    {
        if self.status == TaskStatus::InProgress {
            return Err(DomainError::generic("Cannot remove resource from task that is in progress"));
        }
        self.assigned_resources = list_without(&self.assigned_resources, resource_id);
        self.updated_at = now_millis();
        Ok(())
    }

    /// Whether the task is completed.
    pub fn is_completed(&self) -> (b: bool)
        ensures
            b == (self.status == TaskStatus::Completed),
    {
        self.status == TaskStatus::Completed
    }

    /// Whether the task has started: it is in progress or completed.
    pub fn is_started(&self) -> (b: bool)
        ensures
            b == (self.status == TaskStatus::InProgress || self.status == TaskStatus::Completed),
    {
        match self.status {
            TaskStatus::InProgress | TaskStatus::Completed => true,
            _ => false,
        }
    }

    /// Whether the task is late on the given day.
    pub fn is_delayed_on(&self, today: Date) -> (b: bool)
        ensures
            b == self.delayed_on(today.day()),
    {
        match (self.end_date, self.actual_end_date) {
            (Some(planned), Some(actual)) => planned.before(&actual),
            (Some(planned), None) => planned.before(&today),
            _ => false,
        }
    }

    /// Whether the task is late today (in UTC).
    pub fn is_delayed(&self) -> (b: bool)
        ensures
            exists|today: Date| today.wf() && b == self.delayed_on(today.day()),
    {
        let today = Date::today();
        self.is_delayed_on(today)
    }
}

// ============================================================================
// PROJECTS
// ============================================================================

/// How a project is run. The alert threshold of the budget is a whole percentage.
#[derive(Debug, Clone, Copy, PartialEq, Eq)]
pub struct ProjectSettings {
    pub allow_overtime: bool,
    pub require_approval: bool,
    pub auto_resource_leveling: bool,
    pub critical_path_alert: bool,
    /// Share of the budget, in percent, at which an alert is raised.
    pub budget_alert_threshold: Option<u32>,
}

impl Default for ProjectSettings {
    fn default() -> (s: Self)
        ensures
            s == (ProjectSettings {
                allow_overtime: false,
                require_approval: true,
                auto_resource_leveling: false,
                critical_path_alert: true,
                budget_alert_threshold: Some(90),
            }),
    {
        ProjectSettings {
            allow_overtime: false,
            require_approval: true,
            auto_resource_leveling: false,
            critical_path_alert: true,
            budget_alert_threshold: Some(90),
        }
    }
}

/// A resource assigned to a task of a project.
#[derive(Debug, Clone, PartialEq, Eq)]
pub struct ResourceAssignment {
    pub resource_id: String,
    pub task_id: String,
    pub allocation_percentage: u8,
    pub start_date: Date,
    pub end_date: Option<Date>,
    pub role: String,
    /// Milliseconds since the Unix epoch.
    pub created_at: i64,
}

/// The key under which a project files an assignment: the resource, an underscore,
/// and the task.
pub open spec fn assignment_key(resource_id: Seq<char>, task_id: Seq<char>) -> Seq<char> {
    resource_id + "_"@ + task_id
}

/// The message of an assignment refused because its key is taken.
pub open spec fn already_assigned_message() -> Seq<char> {
    "Resource is already assigned to this"@ + " task"@
}

/// The position of the first task, from position `i` on, with the identifier.
pub open spec fn find_task_from(tasks: Seq<Task>, id: Seq<char>, i: int) -> Option<int>
    decreases tasks.len() - i,
{
    if i < 0 || i >= tasks.len() {
        None
    } else if tasks[i].id@ == id {
        Some(i)
    } else {
        find_task_from(tasks, id, i + 1)
    }
}

/// The position of the first task with the identifier.
pub open spec fn find_task(tasks: Seq<Task>, id: Seq<char>) -> Option<int> {
    find_task_from(tasks, id, 0)
}

/// The position of the first assignment, from position `i` on, filed under the key.
pub open spec fn find_assignment_from(resources: Seq<(String, ResourceAssignment)>, key: Seq<char>, i: int) -> Option<int>
    decreases resources.len() - i,
{
    if i < 0 || i >= resources.len() {
        None
    } else if resources[i].0@ == key {
        Some(i)
    } else {
        find_assignment_from(resources, key, i + 1)
    }
}

/// The position of the first assignment filed under the key.
pub open spec fn find_assignment(resources: Seq<(String, ResourceAssignment)>, key: Seq<char>) -> Option<int> {
    find_assignment_from(resources, key, 0)
}

/// The first position from `i` on holds the identifier, where one does.
pub proof fn lemma_find_task_from(tasks: Seq<Task>, id: Seq<char>, i: int)
    requires
        0 <= i <= tasks.len(),
    ensures
        find_task_from(tasks, id, i) matches Some(k) ==> i <= k < tasks.len() && tasks[k].id@ == id
            && forall|j: int| i <= j < k ==> tasks[j].id@ != id,
        find_task_from(tasks, id, i) is None ==> forall|j: int| i <= j < tasks.len() ==> tasks[j].id@ != id,
    decreases tasks.len() - i,
{
    if i < tasks.len() {
        lemma_find_task_from(tasks, id, i + 1);
    }
}

/// The first position from `i` on holds the key, where one does.
pub proof fn lemma_find_assignment_from(resources: Seq<(String, ResourceAssignment)>, key: Seq<char>, i: int)
    requires
        0 <= i <= resources.len(),
    ensures
        find_assignment_from(resources, key, i) matches Some(k) ==> i <= k < resources.len()
            && resources[k].0@ == key && forall|j: int| i <= j < k ==> resources[j].0@ != key,
        find_assignment_from(resources, key, i) is None ==> forall|j: int|
            i <= j < resources.len() ==> resources[j].0@ != key,
    decreases resources.len() - i,
{
    if i < resources.len() {
        lemma_find_assignment_from(resources, key, i + 1);
    }
}

fn task_position(tasks: &Vec<Task>, id: &str) -> (r: Option<usize>)
    ensures
        match find_task(tasks@, id@) {
            Some(k) => r matches Some(j) && j == k,
            None => r is None,
        },
        r matches Some(k) ==> k < tasks@.len() && tasks@[k as int].id@ == id@,
{
    proof {
        lemma_find_task_from(tasks@, id@, 0);
    }
    let mut i: usize = 0;
    while i < tasks.len()
        invariant
            0 <= i <= tasks@.len(),
            find_task(tasks@, id@) == find_task_from(tasks@, id@, i as int),
        decreases tasks.len() - i,
    {
        if str_eq(tasks[i].id.as_str(), id) {
            return Some(i);
        }
        i = i + 1;
    }
    None
}

fn assignment_position(resources: &Vec<(String, ResourceAssignment)>, key: &str) -> (r: Option<usize>)
    ensures
        match find_assignment(resources@, key@) {
            Some(k) => r matches Some(j) && j == k,
            None => r is None,
        },
        r matches Some(k) ==> k < resources@.len() && resources@[k as int].0@ == key@,
{
    proof {
        lemma_find_assignment_from(resources@, key@, 0);
    }
    let mut i: usize = 0;
    while i < resources.len()
        invariant
            0 <= i <= resources@.len(),
            find_assignment(resources@, key@) == find_assignment_from(resources@, key@, i as int),
        decreases resources.len() - i,
    {
        if str_eq(resources[i].0.as_str(), key) {
            return Some(i);
        }
        i = i + 1;
    }
    None
}

/// The number of completed tasks.
pub open spec fn completed_count(tasks: Seq<Task>) -> nat
    decreases tasks.len(),
{
    if tasks.len() == 0 {
        0
    } else {
        completed_count(tasks.drop_last()) + if tasks.last().status == TaskStatus::Completed { 1nat } else { 0nat }
    }
}

/// A project with its tasks and resource assignments. Tasks are found by their
/// identifier, assignments by their key; the first one found counts.
#[derive(Debug)]
pub struct Project {
    pub id: String,
    pub code: String,
    pub name: String,
    pub description: Option<String>,
    pub status: ProjectStatus,
    pub priority: ProjectPriority,
    pub start_date: Option<Date>,
    pub end_date: Option<Date>,
    pub actual_start_date: Option<Date>,
    pub actual_end_date: Option<Date>,
    pub company_code: String,
    pub manager_id: Option<String>,
    /// Milliseconds since the Unix epoch.
    pub created_at: i64,
    /// Milliseconds since the Unix epoch.
    pub updated_at: i64,
    pub created_by: String,
    pub tasks: Vec<Task>,
    pub resources: Vec<(String, ResourceAssignment)>,
    pub settings: ProjectSettings,
    pub metadata: Vec<(String, String)>,
}

/// Why a project cannot start, if it cannot: it needs a task, then its dates, then
/// a resource.
pub open spec fn start_problem(p: Project) -> Option<Seq<char>> {
    if p.tasks@.len() == 0 {
        Some("Project must have at least one task to start"@)
    } else if p.start_date is None || p.end_date is None {
        Some("Project must have start and end dates defined"@)
    } else if p.resources@.len() == 0 {
        Some("Project must have at least one resource assigned"@)
    } else {
        None
    }
}

/// Whether every task of the project is completed.
pub open spec fn all_tasks_completed(p: Project) -> bool {
    forall|i: int| 0 <= i < p.tasks@.len() ==> (#[trigger] p.tasks@[i]).status == TaskStatus::Completed
}

/// Why a project cannot move to a state, if it cannot.
pub open spec fn status_change_problem(p: Project, new_status: ProjectStatus) -> Option<Seq<char>> {
    if !transition_allowed(p.status, new_status) {
        Some(refused_move(project_status_name(p.status), project_status_name(new_status)))
    } else if new_status == ProjectStatus::InProgress {
        start_problem(p)
    } else if new_status == ProjectStatus::Completed && !all_tasks_completed(p) {
        Some("All tasks must be completed to finish project"@)
    } else {
        None
    }
}

impl Project {
    /// Whether the project keeps to its schedule on the given day: it ended by its
    /// planned end, or, not yet ended, the day lies on or before its planned end.
    /// Without a planned end it does not.
    pub open spec fn on_schedule_on(self, today: int) -> bool {
        match (self.end_date, self.actual_end_date) {
            (Some(planned), Some(actual)) => actual.day() <= planned.day(),
            (Some(planned), None) => today <= planned.day(),
            _ => false,
        }
    }

    /// A planned project of medium priority without tasks or resources; refused where
    /// the code, the name or the company code is blank, checked in that order.
    pub fn new(code: String, name: String, company_code: String, created_by: String) -> (r: Result<Project, DomainError>)
        ensures
            all_whitespace(code@) ==> (r matches Err(e) && e.is_validation("code"@, "Project code cannot be empty"@)),
            !all_whitespace(code@) && all_whitespace(name@) ==> (r matches Err(e) && e.is_validation(
                "name"@,
                "Project name cannot be empty"@,
            )),
            !all_whitespace(code@) && !all_whitespace(name@) && all_whitespace(company_code@) ==> (r matches Err(e)
                && e.is_validation("company_code"@, "Company code cannot be empty"@)),
            !all_whitespace(code@) && !all_whitespace(name@) && !all_whitespace(company_code@) ==> (r matches Ok(p)
                && {
                &&& p.id@.len() == 36
                &&& p.code == code && p.name == name && p.company_code == company_code && p.created_by == created_by
                &&& p.description is None && p.manager_id is None
                &&& p.status == ProjectStatus::Planned
                &&& p.priority == ProjectPriority::Medium
                &&& p.start_date is None && p.end_date is None
                &&& p.actual_start_date is None && p.actual_end_date is None
                &&& p.created_at == p.updated_at
                &&& p.tasks@.len() == 0 && p.resources@.len() == 0 && p.metadata@.len() == 0
                &&& p.settings == (ProjectSettings {
                    allow_overtime: false,
                    require_approval: true,
                    auto_resource_leveling: false,
                    critical_path_alert: true,
                    budget_alert_threshold: Some(90),
                })
            }),
    {
        if is_blank(code.as_str()) {
            return Err(DomainError::validation("code", "Project code cannot be empty"));
        }
        if is_blank(name.as_str()) {
            return Err(DomainError::validation("name", "Project name cannot be empty"));
        }
        if is_blank(company_code.as_str()) {
            return Err(DomainError::validation("company_code", "Company code cannot be empty"));
        }
        let now = now_millis();
        Ok(Project {
            id: uuid7_text(),
            code,
            name,
            description: None,
            status: ProjectStatus::Planned,
            priority: ProjectPriority::Medium,
            start_date: None,
            end_date: None,
            actual_start_date: None,
            actual_end_date: None,
            company_code,
            manager_id: None,
            created_at: now,
            updated_at: now,
            created_by,
            tasks: Vec::new(),
            resources: Vec::new(),
            settings: ProjectSettings::default(),
            metadata: Vec::new(),
        })
    }

    /// Moves the project to `new_status` on the day `today`, at the instant `now`, where
    /// the move is allowed and, to start, the project has a task, both planned dates
    /// and a resource, or, to finish, every task is completed. Starting records `today`
    /// as the actual start, finishing as the actual end; the project is marked updated
    /// at `now`. A refused move changes nothing.
    pub fn change_status_on(&mut self, new_status: ProjectStatus, today: Date, now: i64) -> (r: Result<(), DomainError>)
        ensures
            match status_change_problem(*old(self), new_status) {
                Some(msg) => r matches Err(e) && e.is_generic(msg) && *final(self) == *old(self),
                None => r is Ok && *final(self) == (Project {
                    status: new_status,
                    actual_start_date: final(self).actual_start_date,
                    actual_end_date: final(self).actual_end_date,
                    updated_at: final(self).updated_at,
                    ..*old(self)
                }) && final(self).updated_at == now
                    && (new_status == ProjectStatus::InProgress ==> final(self).actual_start_date == Some(today)
                    && final(self).actual_end_date == old(self).actual_end_date)
                    && (new_status == ProjectStatus::Completed ==> final(self).actual_end_date == Some(today)
                    && final(self).actual_start_date == old(self).actual_start_date)
                    && (new_status != ProjectStatus::InProgress && new_status != ProjectStatus::Completed
                    ==> final(self).actual_start_date == old(self).actual_start_date
                    && final(self).actual_end_date == old(self).actual_end_date),
            },
    {
        if !self.status.can_transition_to(&new_status) {
            let message = String::from_str("Cannot transition from ").concat(project_status_debug(self.status)).concat(
                " to ",
            ).concat(project_status_debug(new_status));
            return Err(DomainError::Generic { message });
        }
        match new_status {
            ProjectStatus::InProgress => {
                if self.tasks.len() == 0 {
                    return Err(DomainError::generic("Project must have at least one task to start"));
                }
                if self.start_date.is_none() || self.end_date.is_none() {
                    return Err(DomainError::generic("Project must have start and end dates defined"));
                }
                if self.resources.len() == 0 {
                    return Err(DomainError::generic("Project must have at least one resource assigned"));
                }
                self.actual_start_date = Some(today);
            },
            ProjectStatus::Completed => {
                let mut i: usize = 0;
                while i < self.tasks.len()
                    invariant
                        *self == *old(self),
                        new_status == ProjectStatus::Completed,
                        transition_allowed(old(self).status, new_status),
                        0 <= i <= self.tasks@.len(),
                        forall|k: int| 0 <= k < i ==> (#[trigger] self.tasks@[k]).status == TaskStatus::Completed,
                    decreases self.tasks.len() - i,
                {
                    if self.tasks[i].status != TaskStatus::Completed {
                        assert(!all_tasks_completed(*self));
                        return Err(DomainError::generic("All tasks must be completed to finish project"));
                    }
                    i = i + 1;
                }
                self.actual_end_date = Some(today);
            },
            _ => {},
        }
        self.status = new_status;
        self.updated_at = now;
        Ok(())
    }

    /// Moves the project to `new_status` where the move is allowed and, to start,
    /// the project has a task, both planned dates and a resource, or, to finish, every
    /// task is completed. Starting records today as the actual start, finishing as
    /// the actual end. A refused move changes nothing.
    pub fn change_status(&mut self, new_status: ProjectStatus) -> (r: Result<(), DomainError>)
        ensures
            match status_change_problem(*old(self), new_status) {
                Some(msg) => r matches Err(e) && e.is_generic(msg) && *final(self) == *old(self),
                None => r is Ok && *final(self) == (Project {
                    status: new_status,
                    actual_start_date: final(self).actual_start_date,
                    actual_end_date: final(self).actual_end_date,
                    updated_at: final(self).updated_at,
                    ..*old(self)
                }) && (new_status == ProjectStatus::InProgress ==> (final(self).actual_start_date matches Some(d)
                    && d.wf()) && final(self).actual_end_date == old(self).actual_end_date)
                    && (new_status == ProjectStatus::Completed ==> (final(self).actual_end_date matches Some(d)
                    && d.wf()) && final(self).actual_start_date == old(self).actual_start_date)
                    && (new_status != ProjectStatus::InProgress && new_status != ProjectStatus::Completed
                    ==> final(self).actual_start_date == old(self).actual_start_date
                    && final(self).actual_end_date == old(self).actual_end_date),
            },
    {
        let today = Date::today();
        let now = now_millis();
        self.change_status_on(new_status, today, now)
    }

    /// Adds a task; refused where a task with its identifier is already there.
    pub fn add_task(&mut self, task: Task) -> (r: Result<(), DomainError>)
        ensures
            find_task(old(self).tasks@, task.id@) is Some ==> (r matches Err(e) && e.is_validation(
                "task_id"@,
                "Task with this ID already exists"@,
            ) && *final(self) == *old(self)),
            find_task(old(self).tasks@, task.id@) is None ==> r is Ok && final(self).tasks@ == old(self).tasks@.push(
                task,
            ) && *final(self) == (Project { tasks: final(self).tasks, updated_at: final(self).updated_at, ..*old(self) }),
            task_ids_unique(old(self).tasks@) ==> task_ids_unique(final(self).tasks@),
    {
        match task_position(&self.tasks, task.id.as_str()) {
            Some(_) => Err(DomainError::validation("task_id", "Task with this ID already exists")),
            None => {
                proof {
                    if task_ids_unique(self.tasks@) {
                        lemma_add_task_keeps_ids_unique(self.tasks@, task);
                    }
                }
                self.tasks.push(task);
                self.updated_at = now_millis();
                Ok(())
            },
        }
    }

    /// Removes the task with the identifier, if there is one; refused while it is in
    /// progress.
    pub fn remove_task(&mut self, task_id: &str) -> (r: Result<(), DomainError>)
        ensures
            match find_task(old(self).tasks@, task_id@) {
                Some(i) => if old(self).tasks@[i].status == TaskStatus::InProgress {
                    r matches Err(e) && e.is_generic("Cannot remove task that is in progress"@) && *final(self) == *old(self)
                } else {
                    r is Ok && final(self).tasks@ == old(self).tasks@.remove(i)
                        && *final(self) == (Project { tasks: final(self).tasks, updated_at: final(self).updated_at, ..*old(self) })
                },
                None => r is Ok && *final(self) == (Project { updated_at: final(self).updated_at, ..*old(self) }),
            },
    {
        match task_position(&self.tasks, task_id) {
            Some(i) => {
                if self.tasks[i].status == TaskStatus::InProgress {
                    return Err(DomainError::generic("Cannot remove task that is in progress"));
                }
                self.tasks.remove(i);
            },
            None => {},
        }
        self.updated_at = now_millis();
        Ok(())
    }

    /// Assigns a resource to a task, filed under the resource and the task; refused
    /// where that key is already taken.
    pub fn assign_resource(&mut self, assignment: ResourceAssignment) -> (r: Result<(), DomainError>)
        ensures
            ({
                let key = assignment_key(assignment.resource_id@, assignment.task_id@);
                &&& find_assignment(old(self).resources@, key) is Some ==> (r matches Err(e) && e.is_validation(
                    "resource_assignment"@,
                    already_assigned_message(),
                ) && *final(self) == *old(self))
                &&& find_assignment(old(self).resources@, key) is None ==> (r is Ok
                    && final(self).resources@.len() == old(self).resources@.len() + 1
                    && final(self).resources@.drop_last() == old(self).resources@
                    && final(self).resources@.last().0@ == key && final(self).resources@.last().1 == assignment
                    && *final(self) == (Project { resources: final(self).resources, updated_at: final(self).updated_at, ..*old(self) }))
            }),
    {
        let key = assignment.resource_id.clone().concat("_").concat(assignment.task_id.as_str());
        match assignment_position(&self.resources, key.as_str()) {
            Some(_) => {
                let message = String::from_str("Resource is already assigned to this").concat(" task");
                Err(DomainError::ValidationError { field: String::from_str("resource_assignment"), message })
            },
            None => {
                let ghost r0 = self.resources@;
                self.resources.push((key, assignment));
                proof {
                    assert(self.resources@.drop_last() =~= r0);
                }
                self.updated_at = now_millis();
                Ok(())
            },
        }
    }

    /// Removes the assignment of a resource to a task, if there is one, as of the
    /// given day; refused where it has started by then.
    pub fn remove_resource_assignment_on(&mut self, resource_id: &str, task_id: &str, today: Date) -> (r: Result<(), DomainError>)
        ensures
            match find_assignment(old(self).resources@, assignment_key(resource_id@, task_id@)) {
                Some(i) => if old(self).resources@[i].1.start_date.day() <= today.day() {
                    r matches Err(e) && e.is_generic("Cannot remove resource assignment that has already started"@)
                        && *final(self) == *old(self)
                } else {
                    r is Ok && final(self).resources@ == old(self).resources@.remove(i)
                        && *final(self) == (Project { resources: final(self).resources, updated_at: final(self).updated_at, ..*old(self) })
                },
                None => r is Ok && *final(self) == (Project { updated_at: final(self).updated_at, ..*old(self) }),
            },
    {
        let key = String::from_str(resource_id).concat("_").concat(task_id);
        match assignment_position(&self.resources, key.as_str()) {
            Some(i) => {
                if !today.before(&self.resources[i].1.start_date) {
                    return Err(DomainError::generic("Cannot remove resource assignment that has already started"));
                }
                self.resources.remove(i);
            },
            None => {},
        }
        self.updated_at = now_millis();
        Ok(())
    }

    /// Removes the assignment of a resource to a task, if there is one; refused where
    /// it has started by today (in UTC).
    pub fn remove_resource_assignment(&mut self, resource_id: &str, task_id: &str) -> (r: Result<(), DomainError>)
        ensures
            exists|today: Date| today.wf() && match find_assignment(old(self).resources@, assignment_key(resource_id@, task_id@)) {
                Some(i) => if old(self).resources@[i].1.start_date.day() <= today.day() {
                    r matches Err(e) && e.is_generic("Cannot remove resource assignment that has already started"@)
                        && *final(self) == *old(self)
                } else {
                    r is Ok && final(self).resources@ == old(self).resources@.remove(i)
                        && *final(self) == (Project { resources: final(self).resources, updated_at: final(self).updated_at, ..*old(self) })
                },
                None => r is Ok && *final(self) == (Project { updated_at: final(self).updated_at, ..*old(self) }),
            },
    {
        let today = Date::today();
        self.remove_resource_assignment_on(resource_id, task_id, today)
    }

    /// Whether the project has a task.
    pub fn has_tasks(&self) -> (b: bool)
        ensures
            b == (self.tasks@.len() > 0),
    {
        self.tasks.len() != 0
    }

    /// Whether the project has a resource assignment.
    pub fn has_resources(&self) -> (b: bool)
        ensures
            b == (self.resources@.len() > 0),
    {
        self.resources.len() != 0
    }

    /// Whether the project keeps to its schedule on the given day.
    pub fn is_on_schedule_on(&self, today: Date) -> (b: bool)
        ensures
            b == self.on_schedule_on(today.day()),
    {
        match (self.end_date, self.actual_end_date) {
            (Some(planned), Some(actual)) => !planned.before(&actual),
            (Some(planned), None) => !planned.before(&today),
            _ => false,
        }
    }

    /// Whether the project keeps to its schedule today (in UTC).
    pub fn is_on_schedule(&self) -> (b: bool)
        ensures
            exists|today: Date| today.wf() && b == self.on_schedule_on(today.day()),
    {
        let today = Date::today();
        self.is_on_schedule_on(today)
    }

    /// The number of completed tasks, from which the share of work done is taken.
    pub fn completed_task_count(&self) -> (n: usize)
        ensures
            n == completed_count(self.tasks@),
    {
        let mut n: usize = 0;
        let mut i: usize = 0;
        while i < self.tasks.len()
            invariant
                0 <= i <= self.tasks@.len(),
                n == completed_count(self.tasks@.take(i as int)),
                n <= i,
            decreases self.tasks.len() - i,
        {
            proof {
                assert(self.tasks@.take(i as int + 1).drop_last() =~= self.tasks@.take(i as int));
            }
            if self.tasks[i].status == TaskStatus::Completed {
                n = n + 1;
            }
            i = i + 1;
        }
        proof {
            assert(self.tasks@.take(self.tasks@.len() as int) =~= self.tasks@);
        }
        n
    }

}

// ============================================================================
// LAWS
// ============================================================================

/// Law: completed and cancelled tasks never change state, and no task goes back to
/// not started.
pub proof fn lemma_task_final_states(to: TaskStatus)
    ensures
        !task_transition_allowed(TaskStatus::Completed, to),
        !task_transition_allowed(TaskStatus::Cancelled, to),
        forall|from: TaskStatus| !task_transition_allowed(from, TaskStatus::NotStarted),
{
}

/// Whether no two tasks share an identifier.
pub open spec fn task_ids_unique(tasks: Seq<Task>) -> bool {
    forall|i: int, j: int| 0 <= i < j < tasks.len() ==> (#[trigger] tasks[i]).id@ != (#[trigger] tasks[j]).id@
}

/// Whether no two assignments share a key.
pub open spec fn assignment_keys_unique(resources: Seq<(String, ResourceAssignment)>) -> bool {
    forall|i: int, j: int| 0 <= i < j < resources.len() ==> (#[trigger] resources[i]).0@ != (#[trigger] resources[j]).0@
}

/// Law: a task is added only under an identifier not yet used, so the identifiers
/// of a project's tasks stay distinct.
pub proof fn lemma_add_task_keeps_ids_unique(tasks: Seq<Task>, task: Task)
    requires
        task_ids_unique(tasks),
        find_task(tasks, task.id@) is None,
    ensures
        task_ids_unique(tasks.push(task)),
{
    lemma_find_task_from(tasks, task.id@, 0);
    let t = tasks.push(task);
    assert forall|i: int, j: int| 0 <= i < j < t.len() implies (#[trigger] t[i]).id@ != (#[trigger] t[j]).id@ by {
        if j == tasks.len() {
            assert(tasks[i].id@ != task.id@);
        } else {
            assert(t[i] == tasks[i] && t[j] == tasks[j]);
        }
    }
}

/// Law: an assignment is filed only under a key not yet used, so the keys of a
/// project's assignments stay distinct.
pub proof fn lemma_assign_keeps_keys_unique(resources: Seq<(String, ResourceAssignment)>, entry: (String, ResourceAssignment))
    requires
        assignment_keys_unique(resources),
        find_assignment(resources, entry.0@) is None,
    ensures
        assignment_keys_unique(resources.push(entry)),
{
    lemma_find_assignment_from(resources, entry.0@, 0);
    let t = resources.push(entry);
    assert forall|i: int, j: int| 0 <= i < j < t.len() implies (#[trigger] t[i]).0@ != (#[trigger] t[j]).0@ by {
        if j == resources.len() {
            assert(resources[i].0@ != entry.0@);
        } else {
            assert(t[i] == resources[i] && t[j] == resources[j]);
        }
    }
}

/// Law: once a task is added, the project finds it under its identifier.
pub proof fn lemma_added_task_is_found(tasks: Seq<Task>, task: Task)
    requires
        find_task(tasks, task.id@) is None,
    ensures
        find_task(tasks.push(task), task.id@) == Some(tasks.len() as int),
{
    lemma_find_task_from(tasks, task.id@, 0);
    lemma_find_task_from(tasks.push(task), task.id@, 0);
    let t = tasks.push(task);
    assert(t[tasks.len() as int].id@ == task.id@);
    assert forall|j: int| 0 <= j < tasks.len() implies t[j].id@ != task.id@ by {
        assert(t[j] == tasks[j]);
    }
}

} // verus!
