//! Building a project step by step: each setter fills a field, and building checks
//! that the required fields are there and that the dates are in order.

use vstd::prelude::*;
use crate::dates::Date;
use crate::errors::DomainError;
use crate::project_management::advanced_dependencies::now_millis;
use crate::project_management::project::{
    Project, ProjectPriority, ProjectSettings, ProjectStatus, VacationRules, WorkHours,
};
use crate::project_management::project_new::{find_task, Task};
use crate::project_management::scenario::uuid7_text;
use crate::text::str_eq;

verus! {

/// The tasks after adding one: it replaces the first task with its identifier, or
/// joins the end of the list (a project holds its tasks under their codes).
pub open spec fn tasks_with(tasks: Seq<Task>, t: Task) -> Seq<Task> {
    match find_task(tasks, t.id@) {
        Some(i) => tasks.update(i, t),
        None => tasks.push(t),
    }
}

/// Collects the fields of a project; the code, the name, the company and the creator
/// are required.
#[derive(Debug)]
pub struct ProjectBuilder {
    pub id: String,
    pub code: Option<String>,
    pub name: Option<String>,
    pub description: Option<String>,
    pub start_date: Option<Date>,
    pub end_date: Option<Date>,
    pub company_code: Option<String>,
    pub created_by: Option<String>,
    pub vacation_rules: Option<VacationRules>,
    pub timezone: Option<String>,
    pub work_hours: Option<WorkHours>,
    pub tasks: Vec<Task>,
}

/// Whether the error is the refusal of dates out of order.
pub open spec fn is_date_order_error(e: DomainError) -> bool {
    e matches DomainError::ProjectInvalidState { current, expected }
        && current@ == "invalid_dates"@ && expected@ == "start_date < end_date"@
}

/// Whether the dates of the builder are out of order: both are set and the start
/// comes after the end.
pub open spec fn dates_out_of_order(b: ProjectBuilder) -> bool {
    b.start_date matches Some(s) && b.end_date matches Some(e) && s.day() > e.day()
}

/// Whether `p` is the project that the builder describes, created at `now`.
pub open spec fn built_from(b: ProjectBuilder, p: Project, now: i64) -> bool {
    &&& p.id == b.id
    &&& b.code == Some(p.code)
    &&& b.name == Some(p.name)
    &&& p.description == b.description
    &&& p.status == ProjectStatus::Planned
    &&& p.priority == ProjectPriority::Medium
    &&& p.start_date == b.start_date
    &&& p.end_date == b.end_date
    &&& p.actual_start_date is None
    &&& p.actual_end_date is None
    &&& b.company_code == Some(p.company_code)
    &&& p.manager_id is None
    &&& p.created_at == now
    &&& p.updated_at == now
    &&& b.created_by == Some(p.created_by)
    &&& p.tasks == b.tasks
    &&& p.resources@.len() == 0
    &&& p.settings == (ProjectSettings { timezone: b.timezone, vacation_rules: b.vacation_rules, work_hours: b.work_hours })
    &&& p.metadata@.len() == 0
}

impl ProjectBuilder {
    /// A builder with a new identifier and nothing else set.
    pub fn new() -> (b: ProjectBuilder)
        ensures
            b.id@.len() == 36,
            b.code is None,
            b.name is None,
            b.description is None,
            b.start_date is None,
            b.end_date is None,
            b.company_code is None,
            b.created_by is None,
            b.vacation_rules is None,
            b.timezone is None,
            b.work_hours is None,
            b.tasks@.len() == 0,
    {
        ProjectBuilder {
            id: uuid7_text(),
            code: None,
            name: None,
            description: None,
            start_date: None,
            end_date: None,
            company_code: None,
            created_by: None,
            vacation_rules: None,
            timezone: None,
            work_hours: None,
            tasks: Vec::new(),
        }
    }

    /// Sets the code.
    pub fn code(self, code: String) -> (b: ProjectBuilder)
        ensures
            b == (ProjectBuilder { code: Some(code), ..self }),
    {
        ProjectBuilder { code: Some(code), ..self }
    }

    /// Sets the name.
    pub fn name(self, name: String) -> (b: ProjectBuilder)
        ensures
            b == (ProjectBuilder { name: Some(name), ..self }),
    {
        ProjectBuilder { name: Some(name), ..self }
    }

    /// Sets or clears the description.
    pub fn description(self, description: Option<String>) -> (b: ProjectBuilder)
        ensures
            b == (ProjectBuilder { description: description, ..self }),
    {
        ProjectBuilder { description, ..self }
    }

    /// Sets the planned start.
    pub fn start_date(self, start_date: Date) -> (b: ProjectBuilder)
        ensures
            b == (ProjectBuilder { start_date: Some(start_date), ..self }),
    {
        ProjectBuilder { start_date: Some(start_date), ..self }
    }

    /// Sets the planned end.
    pub fn end_date(self, end_date: Date) -> (b: ProjectBuilder)
        ensures
            b == (ProjectBuilder { end_date: Some(end_date), ..self }),
    {
        ProjectBuilder { end_date: Some(end_date), ..self }
    }

    /// Sets the company.
    pub fn company_code(self, company_code: String) -> (b: ProjectBuilder)
        ensures
            b == (ProjectBuilder { company_code: Some(company_code), ..self }),
    {
        ProjectBuilder { company_code: Some(company_code), ..self }
    }

    /// Sets the creator.
    pub fn created_by(self, created_by: String) -> (b: ProjectBuilder)
        ensures
            b == (ProjectBuilder { created_by: Some(created_by), ..self }),
    {
        ProjectBuilder { created_by: Some(created_by), ..self }
    }

    /// Sets the vacation rules.
    pub fn vacation_rules(self, vacation_rules: VacationRules) -> (b: ProjectBuilder)
        ensures
            b == (ProjectBuilder { vacation_rules: Some(vacation_rules), ..self }),
    {
        ProjectBuilder { vacation_rules: Some(vacation_rules), ..self }
    }

    /// Sets the time zone.
    pub fn timezone(self, timezone: String) -> (b: ProjectBuilder)
        ensures
            b == (ProjectBuilder { timezone: Some(timezone), ..self }),
    {
        ProjectBuilder { timezone: Some(timezone), ..self }
    }

    /// Sets the working hours.
    pub fn work_hours(self, work_hours: WorkHours) -> (b: ProjectBuilder)
        ensures
            b == (ProjectBuilder { work_hours: Some(work_hours), ..self }),
    {
        ProjectBuilder { work_hours: Some(work_hours), ..self }
    }

    /// Adds a task; it replaces a task with the same identifier.
    pub fn add_task(self, task: Task) -> (b: ProjectBuilder)
        ensures
            b.tasks@ == tasks_with(self.tasks@, task),
            b == (ProjectBuilder { tasks: b.tasks, ..self }),
    {
        let mut b = self;
        let ghost s0 = b;
        let ghost t0 = b.tasks@;
        let mut i: usize = 0;
        while i < b.tasks.len()
            invariant
                0 <= i <= b.tasks@.len(),
                b == s0,
                s0 == self,
                b.tasks@ == t0,
                find_task(t0, task.id@) == crate::project_management::project_new::find_task_from(t0, task.id@, i as int),
            decreases b.tasks.len() - i,
        {
            if str_eq(b.tasks[i].id.as_str(), task.id.as_str()) {
                b.tasks.set(i, task);
                proof {
                    assert(b.tasks@ =~= tasks_with(t0, task));
                }
                return b;
            }
            i = i + 1;
        }
        b.tasks.push(task);
        proof {
            assert(b.tasks@ =~= tasks_with(t0, task));
        }
        b
    }

    /// Builds the project at the instant `now`: refused where the code, the name, the
    /// company or the creator is missing, in that order, or where the start comes
    /// after the end; otherwise a planned project of medium priority with the fields
    /// set, the tasks added, and no resource.
    pub fn build_at(self, now: i64) -> (r: Result<Project, DomainError>)
        ensures
            self.code is None ==> (r matches Err(e) && e.is_validation("code"@, "Project code is required"@)),
            self.code is Some && self.name is None ==> (r matches Err(e) && e.is_validation("name"@, "Project name is required"@)),
            self.code is Some && self.name is Some && self.company_code is None ==> (r matches Err(e)
                && e.is_validation("company_code"@, "Company code is required"@)),
            self.code is Some && self.name is Some && self.company_code is Some && self.created_by is None ==> (r matches Err(e)
                && e.is_validation("created_by"@, "Creator is required"@)),
            self.code is Some && self.name is Some && self.company_code is Some && self.created_by is Some ==> {
                &&& dates_out_of_order(self) ==> (r matches Err(e) && is_date_order_error(e))
                &&& !dates_out_of_order(self) ==> (r matches Ok(p) && built_from(self, p, now))
            },
    {
        let b = self;
        let code = match b.code {
            Some(c) => c,
            None => {
                return Err(DomainError::validation("code", "Project code is required"));
            },
        };
        let name = match b.name {
            Some(n) => n,
            None => {
                return Err(DomainError::validation("name", "Project name is required"));
            },
        };
        let company_code = match b.company_code {
            Some(c) => c,
            None => {
                return Err(DomainError::validation("company_code", "Company code is required"));
            },
        };
        let created_by = match b.created_by {
            Some(c) => c,
            None => {
                return Err(DomainError::validation("created_by", "Creator is required"));
            },
        };
        match (b.start_date, b.end_date) {
            (Some(s), Some(e)) => {
                if e.before(&s) {
                    return Err(DomainError::ProjectInvalidState {
                        current: String::from_str("invalid_dates"),
                        expected: String::from_str("start_date < end_date"),
                    });
                }
            },
            _ => {},
        }
        let settings = ProjectSettings { timezone: b.timezone, vacation_rules: b.vacation_rules, work_hours: b.work_hours };
        Ok(Project {
            id: b.id,
            code,
            name,
            description: b.description,
            status: ProjectStatus::Planned,
            priority: ProjectPriority::Medium,
            start_date: b.start_date,
            end_date: b.end_date,
            actual_start_date: None,
            actual_end_date: None,
            company_code,
            manager_id: None,
            created_at: now,
            updated_at: now,
            created_by,
            tasks: b.tasks,
            resources: Vec::new(),
            settings,
            metadata: Vec::new(),
        })
    }

    /// Builds the project now, as `build_at` does with the current instant.
    pub fn build(self) -> (r: Result<Project, DomainError>)
        ensures
            self.code is None ==> (r matches Err(e) && e.is_validation("code"@, "Project code is required"@)),
            self.code is Some && self.name is None ==> (r matches Err(e) && e.is_validation("name"@, "Project name is required"@)),
            self.code is Some && self.name is Some && self.company_code is None ==> (r matches Err(e)
                && e.is_validation("company_code"@, "Company code is required"@)),
            self.code is Some && self.name is Some && self.company_code is Some && self.created_by is None ==> (r matches Err(e)
                && e.is_validation("created_by"@, "Creator is required"@)),
            self.code is Some && self.name is Some && self.company_code is Some && self.created_by is Some ==> {
                &&& dates_out_of_order(self) ==> (r matches Err(e) && is_date_order_error(e))
                &&& !dates_out_of_order(self) ==> (r matches Ok(p) && exists|now: i64| built_from(self, p, now))
            },
    {
        let now = now_millis();
        self.build_at(now)
    }
}

impl Default for ProjectBuilder {
    fn default() -> (b: Self)
        ensures
            b.code is None,
            b.name is None,
            b.company_code is None,
            b.created_by is None,
            b.tasks@.len() == 0,
    {
        ProjectBuilder::new()
    }
}

} // verus!
