//! Resources with their skills and availability, their allocations to tasks with
//! the lifecycle of an allocation, and the conflicts found among allocations.

use vstd::prelude::*;
use crate::dates::{Date, MAX_DAY, weekday_index};
use crate::errors::DomainError;
use crate::project_management::advanced_dependencies::now_millis;
use crate::project_management::scenario::uuid7_text;
use crate::text::{all_whitespace, is_blank, str_eq};

verus! {

/// The state of an allocation of a resource.
#[derive(Debug, Clone, Copy, PartialEq, Eq, Structural)]
pub enum AllocationStatus {
    Planned,
    Active,
    Completed,
    Cancelled,
}

/// The kind of a resource.
#[derive(Debug, Clone, Copy, PartialEq, Eq, Structural)]
pub enum ResourceType {
    Human,
    Equipment,
    Material,
    Facility,
}

/// How skilled a resource is.
#[derive(Debug, Clone, Copy, PartialEq, Eq, Structural)]
pub enum SkillLevel {
    Beginner,
    Intermediate,
    Advanced,
    Expert,
}

/// A skill of a resource.
#[derive(Debug, Clone, PartialEq, Eq)]
pub struct Skill {
    pub id: String,
    pub name: String,
    pub level: SkillLevel,
    pub years_experience: Option<u8>,
    pub certified: bool,
}

/// A pause within a working day, as `HH:MM` texts.
#[derive(Debug, Clone, PartialEq, Eq)]
pub struct BreakTime {
    pub start_time: String,
    pub end_time: String,
    pub description: Option<String>,
}

/// A working day, with its hours as `HH:MM` texts.
#[derive(Debug, Clone, PartialEq, Eq)]
pub struct WorkDay {
    pub is_working_day: bool,
    pub start_time: Option<String>,
    pub end_time: Option<String>,
    pub break_times: Vec<BreakTime>,
}

/// The working days of a week.
#[derive(Debug, Clone, PartialEq, Eq)]
pub struct WorkingHours {
    pub monday: WorkDay,
    pub tuesday: WorkDay,
    pub wednesday: WorkDay,
    pub thursday: WorkDay,
    pub friday: WorkDay,
    pub saturday: WorkDay,
    pub sunday: WorkDay,
}

/// The state of a resource.
#[derive(Debug, Clone, Copy, PartialEq, Eq, Structural)]
pub enum ResourceStatus {
    Active,
    Inactive,
    OnLeave,
    Terminated,
}

/// How serious an allocation conflict is.
#[derive(Debug, Clone, Copy, PartialEq, Eq, Structural)]
pub enum ConflictSeverity {
    Low,
    Medium,
    High,
    Critical,
}


/// A span of leave of a resource, both days included.
#[derive(Debug, Clone, PartialEq, Eq)]
pub struct LeavePeriod {
    pub start_date: Date,
    pub end_date: Date,
    pub reason: String,
    /// Share of its time the resource keeps; 0 when away completely.
    pub allocation_percentage: u8,
}

/// When a resource can work: its week, time zone, holidays, leaves and the largest
/// share of its time that may be allocated.
#[derive(Debug, Clone, PartialEq, Eq)]
pub struct ResourceAvailability {
    pub working_hours: WorkingHours,
    pub timezone: String,
    pub holidays: Vec<Date>,
    pub leaves: Vec<LeavePeriod>,
    pub max_allocation_percentage: u8,
}

/// Whether a day is a working day of the default week: Monday to Friday.
pub open spec fn default_week_works(weekday: int) -> bool {
    weekday < 5
}

fn standard_workday() -> (d: WorkDay)
    ensures
        d.is_working_day,
        d.start_time matches Some(t) && t@ == "09:00"@,
        d.end_time matches Some(t) && t@ == "17:00"@,
        d.break_times@.len() == 1,
{
    let mut breaks: Vec<BreakTime> = Vec::new();
    breaks.push(BreakTime {
        start_time: String::from_str("12:00"),
        end_time: String::from_str("13:00"),
        description: Some(String::from_str("Lunch break")),
    });
    WorkDay {
        is_working_day: true,
        start_time: Some(String::from_str("09:00")),
        end_time: Some(String::from_str("17:00")),
        break_times: breaks,
    }
}

fn weekend_day() -> (d: WorkDay)
    ensures
        !d.is_working_day,
        d.start_time is None,
        d.end_time is None,
        d.break_times@.len() == 0,
{
    WorkDay { is_working_day: false, start_time: None, end_time: None, break_times: Vec::new() }
}

impl Default for WorkingHours {
    /// Monday to Friday from 09:00 to 17:00 with a lunch break from 12:00 to 13:00;
    /// Saturday and Sunday off.
    fn default() -> (w: Self)
        ensures
            w.monday.is_working_day && w.tuesday.is_working_day && w.wednesday.is_working_day,
            w.thursday.is_working_day && w.friday.is_working_day,
            !w.saturday.is_working_day && !w.sunday.is_working_day,
    {
        WorkingHours {
            monday: standard_workday(),
            tuesday: standard_workday(),
            wednesday: standard_workday(),
            thursday: standard_workday(),
            friday: standard_workday(),
            saturday: weekend_day(),
            sunday: weekend_day(),
        }
    }
}

impl Default for ResourceAvailability {
    /// The default week in UTC, no holidays or leaves, up to the whole of the time.
    fn default() -> (a: Self)
        ensures
            a.working_hours.monday.is_working_day && a.working_hours.tuesday.is_working_day,
            a.working_hours.wednesday.is_working_day && a.working_hours.thursday.is_working_day,
            a.working_hours.friday.is_working_day,
            !a.working_hours.saturday.is_working_day && !a.working_hours.sunday.is_working_day,
            a.timezone@ == "UTC"@,
            a.holidays@.len() == 0,
            a.leaves@.len() == 0,
            a.max_allocation_percentage == 100,
    {
        ResourceAvailability {
            working_hours: WorkingHours::default(),
            timezone: String::from_str("UTC"),
            holidays: Vec::new(),
            leaves: Vec::new(),
            max_allocation_percentage: 100,
        }
    }
}

/// A resource that tasks can be allocated to.
#[derive(Debug)]
pub struct Resource {
    pub id: String,
    pub code: String,
    pub name: String,
    pub resource_type: ResourceType,
    pub company_code: String,
    pub skills: Vec<Skill>,
    pub availability: ResourceAvailability,
    pub status: ResourceStatus,
    /// Milliseconds since the Unix epoch.
    pub created_at: i64,
    /// Milliseconds since the Unix epoch.
    pub updated_at: i64,
    pub created_by: String,
}

/// The rank of a skill level: from 0 for a beginner to 3 for an expert.
pub open spec fn level_rank(l: SkillLevel) -> int {
    match l {
        SkillLevel::Beginner => 0,
        SkillLevel::Intermediate => 1,
        SkillLevel::Advanced => 2,
        SkillLevel::Expert => 3,
    }
}

fn level_rank_of(l: SkillLevel) -> (r: u8)
    ensures
        r == level_rank(l),
{
    match l {
        SkillLevel::Beginner => 0,
        SkillLevel::Intermediate => 1,
        SkillLevel::Advanced => 2,
        SkillLevel::Expert => 3,
    }
}

/// The names of the skills, in order.
pub open spec fn skill_names(skills: Seq<Skill>) -> Seq<Seq<char>> {
    skills.map_values(|s: Skill| s.name@)
}

/// Whether a skill has the name and, where a least level is given, at least that level.
pub open spec fn skill_matches(s: Skill, name: Seq<char>, min_level: Option<SkillLevel>) -> bool {
    s.name@ == name && match min_level {
        Some(m) => level_rank(s.level) >= level_rank(m),
        None => true,
    }
}

/// The working day of the week for a weekday counted from Monday (0) to Sunday (6).
pub open spec fn work_day_of(w: WorkingHours, weekday: int) -> WorkDay {
    if weekday == 0 {
        w.monday
    } else if weekday == 1 {
        w.tuesday
    } else if weekday == 2 {
        w.wednesday
    } else if weekday == 3 {
        w.thursday
    } else if weekday == 4 {
        w.friday
    } else if weekday == 5 {
        w.saturday
    } else {
        w.sunday
    }
}

/// Whether the resource works on the day: not a holiday, within no leave, and a
/// working day of its week.
pub open spec fn available_on(a: ResourceAvailability, day: Date) -> bool {
    &&& !a.holidays@.contains(day)
    &&& forall|i: int| 0 <= i < a.leaves@.len() ==> !((#[trigger] a.leaves@[i]).start_date.day() <= day.day()
        && day.day() <= a.leaves@[i].end_date.day())
    &&& work_day_of(a.working_hours, weekday_index(day.day())).is_working_day
}

fn copy_skill(s: &Skill) -> (c: Skill)
    ensures
        c == *s,
{
    Skill {
        id: s.id.clone(),
        name: s.name.clone(),
        level: s.level,
        years_experience: s.years_experience,
        certified: s.certified,
    }
}

impl Resource {
    /// An active resource with no skills and the default availability, created now:
    /// refused where the code, then the name, then the company code is blank.
    pub fn new(
        code: String,
        name: String,
        resource_type: ResourceType,
        company_code: String,
        created_by: String,
    ) -> (r: Result<Resource, DomainError>)
        ensures
            all_whitespace(code@) ==> (r matches Err(e) && e.is_validation("code"@, "Resource code cannot be empty"@)),
            !all_whitespace(code@) && all_whitespace(name@) ==> (r matches Err(e)
                && e.is_validation("name"@, "Resource name cannot be empty"@)),
            !all_whitespace(code@) && !all_whitespace(name@) && all_whitespace(company_code@) ==> (r matches Err(e)
                && e.is_validation("company_code"@, "Company code cannot be empty"@)),
            !all_whitespace(code@) && !all_whitespace(name@) && !all_whitespace(company_code@) ==> (r matches Ok(res) && {
                &&& res.id@.len() == 36
                &&& res.code == code && res.name == name && res.company_code == company_code
                &&& res.created_by == created_by && res.resource_type == resource_type
                &&& res.skills@.len() == 0
                &&& res.status == ResourceStatus::Active
                &&& res.created_at == res.updated_at
                &&& res.availability.max_allocation_percentage == 100
                &&& res.availability.holidays@.len() == 0 && res.availability.leaves@.len() == 0
                &&& res.availability.timezone@ == "UTC"@
            }),
    {
        if is_blank(code.as_str()) {
            return Err(DomainError::validation("code", "Resource code cannot be empty"));
        }
        if is_blank(name.as_str()) {
            return Err(DomainError::validation("name", "Resource name cannot be empty"));
        }
        if is_blank(company_code.as_str()) {
            return Err(DomainError::validation("company_code", "Company code cannot be empty"));
        }
        let now = now_millis();
        Ok(Resource {
            id: uuid7_text(),
            code,
            name,
            resource_type,
            company_code,
            skills: Vec::new(),
            availability: ResourceAvailability::default(),
            status: ResourceStatus::Active,
            created_at: now,
            updated_at: now,
            created_by,
        })
    }

    /// Adds a skill; refused where the resource has a skill of that name already.
    pub fn add_skill(&mut self, skill: Skill) -> (r: Result<(), DomainError>)
        ensures
            skill_names(old(self).skills@).contains(skill.name@) ==> (r matches Err(e)
                && e.is_validation("skill"@, "Skill already exists for this resource"@) && *final(self) == *old(self)),
            !skill_names(old(self).skills@).contains(skill.name@) ==> r is Ok
                && final(self).skills@ == old(self).skills@.push(skill)
                && *final(self) == (Resource { skills: final(self).skills, updated_at: final(self).updated_at, ..*old(self) }),
    {
        let mut i: usize = 0;
        while i < self.skills.len()
            invariant
                0 <= i <= self.skills@.len(),
                forall|j: int| 0 <= j < i ==> self.skills@[j].name@ != skill.name@,
            decreases self.skills.len() - i,
        {
            if str_eq(self.skills[i].name.as_str(), skill.name.as_str()) {
                proof {
                    assert(skill_names(self.skills@)[i as int] == skill.name@);
                }
                return Err(DomainError::validation("skill", "Skill already exists for this resource"));
            }
            i = i + 1;
        }
        proof {
            if skill_names(self.skills@).contains(skill.name@) {
                let j = choose|j: int| 0 <= j < skill_names(self.skills@).len() && skill_names(self.skills@)[j] == skill.name@;
                assert(self.skills@[j].name@ == skill.name@);
            }
        }
        self.skills.push(skill);
        self.updated_at = now_millis();
        Ok(())
    }

    /// Removes every skill of the name; refused where there is none.
    pub fn remove_skill(&mut self, skill_name: &str) -> (r: Result<(), DomainError>)
        ensures
            !skill_names(old(self).skills@).contains(skill_name@) ==> (r matches Err(e)
                && e.is_validation("skill"@, "Skill not found for this resource"@) && *final(self) == *old(self)),
            skill_names(old(self).skills@).contains(skill_name@) ==> r is Ok
                && final(self).skills@ == old(self).skills@.filter(|s: Skill| s.name@ != skill_name@)
                && *final(self) == (Resource { skills: final(self).skills, updated_at: final(self).updated_at, ..*old(self) }),
    {
        let ghost s0 = self.skills@;
        let mut kept: Vec<Skill> = Vec::new();
        let mut found = false;
        let mut i: usize = 0;
        while i < self.skills.len()
            invariant
                0 <= i <= self.skills@.len(),
                self.skills@ == s0,
                kept@ == s0.take(i as int).filter(|s: Skill| s.name@ != skill_name@),
                found == skill_names(s0.take(i as int)).contains(skill_name@),
            decreases self.skills.len() - i,
        {
            proof {
                let before = s0.take(i as int);
                assert(s0.take(i as int + 1) =~= before.push(s0[i as int]));
                reveal(Seq::filter);
                assert(before.push(s0[i as int]).drop_last() =~= before);
                assert(skill_names(s0.take(i as int + 1)) =~= skill_names(before).push(s0[i as int].name@));
                if skill_names(before).push(s0[i as int].name@).contains(skill_name@) && s0[i as int].name@ != skill_name@ {
                    let j = choose|j: int| 0 <= j < skill_names(before).push(s0[i as int].name@).len()
                        && skill_names(before).push(s0[i as int].name@)[j] == skill_name@;
                    assert(skill_names(before)[j] == skill_name@);
                }
                if skill_names(before).contains(skill_name@) {
                    let j = choose|j: int| 0 <= j < skill_names(before).len() && skill_names(before)[j] == skill_name@;
                    assert(skill_names(before).push(s0[i as int].name@)[j] == skill_name@);
                }
                assert(skill_names(before).push(s0[i as int].name@)[i as int] == s0[i as int].name@);
            }
            if str_eq(self.skills[i].name.as_str(), skill_name) {
                found = true;
            } else {
                kept.push(copy_skill(&self.skills[i]));
            }
            i = i + 1;
        }
        proof {
            assert(s0.take(s0.len() as int) =~= s0);
        }
        if !found {
            return Err(DomainError::validation("skill", "Skill not found for this resource"));
        }
        self.skills = kept;
        self.updated_at = now_millis();
        Ok(())
    }

    /// Whether the resource has a skill of the name and, where a least level is given,
    /// at least that level.
    pub fn has_skill(&self, skill_name: &str, min_level: Option<SkillLevel>) -> (b: bool)
        ensures
            b == exists|i: int| 0 <= i < self.skills@.len() && skill_matches(#[trigger] self.skills@[i], skill_name@, min_level),
    {
        let mut i: usize = 0;
        while i < self.skills.len()
            invariant
                0 <= i <= self.skills@.len(),
                forall|j: int| 0 <= j < i ==> !skill_matches(#[trigger] self.skills@[j], skill_name@, min_level),
            decreases self.skills.len() - i,
        {
            let s = &self.skills[i];
            if str_eq(s.name.as_str(), skill_name) {
                let ok = match min_level {
                    Some(m) => level_rank_of(s.level) >= level_rank_of(m),
                    None => true,
                };
                if ok {
                    assert(skill_matches(self.skills@[i as int], skill_name@, min_level));
                    return true;
                }
            }
            i = i + 1;
        }
        false
    }

    /// Whether the resource works on the day: not a holiday, within no leave, and a
    /// working day of its week.
    pub fn is_available_on_date(&self, date: Date) -> (b: bool)
        requires
            date.wf(),
        ensures
            b == available_on(self.availability, date),
    {
        let a = &self.availability;
        let mut h: usize = 0;
        while h < a.holidays.len()
            invariant
                0 <= h <= a.holidays@.len(),
                *a == self.availability,
                forall|j: int| 0 <= j < h ==> a.holidays@[j] != date,
            decreases a.holidays.len() - h,
        {
            if a.holidays[h].day_number() == date.day_number() {
                proof {
                    a.holidays@[h as int].lemma_same_day(date);
                    assert(a.holidays@[h as int] == date);
                    assert(a.holidays@.contains(date));
                }
                return false;
            }
            h = h + 1;
        }
        proof {
            if a.holidays@.contains(date) {
                let j = choose|j: int| 0 <= j < a.holidays@.len() && a.holidays@[j] == date;
                assert(a.holidays@[j] != date);
            }
        }
        let mut k: usize = 0;
        while k < a.leaves.len()
            invariant
                0 <= k <= a.leaves@.len(),
                *a == self.availability,
                !a.holidays@.contains(date),
                forall|j: int| 0 <= j < k ==> !((#[trigger] a.leaves@[j]).start_date.day() <= date.day()
                    && date.day() <= a.leaves@[j].end_date.day()),
            decreases a.leaves.len() - k,
        {
            let l = &a.leaves[k];
            if !date.before(&l.start_date) && !l.end_date.before(&date) {
                assert(a.leaves@[k as int].start_date.day() <= date.day() && date.day() <= a.leaves@[k as int].end_date.day());
                return false;
            }
            k = k + 1;
        }
        let w = date.weekday_from_monday();
        let day = if w == 0 {
            &a.working_hours.monday
        } else if w == 1 {
            &a.working_hours.tuesday
        } else if w == 2 {
            &a.working_hours.wednesday
        } else if w == 3 {
            &a.working_hours.thursday
        } else if w == 4 {
            &a.working_hours.friday
        } else if w == 5 {
            &a.working_hours.saturday
        } else {
            &a.working_hours.sunday
        };
        day.is_working_day
    }

    /// Whether a share of the resource's time may be allocated: at most its largest share.
    pub fn can_allocate_percentage(&self, percentage: u8) -> (b: bool)
        ensures
            b == (percentage <= self.availability.max_allocation_percentage),
    {
        percentage <= self.availability.max_allocation_percentage
    }
}

/// The allocation of a share of a resource's time to a task, from a day on.
#[derive(Debug)]
pub struct ResourceAllocation {
    pub id: String,
    pub resource_id: String,
    pub task_id: String,
    pub project_id: String,
    pub allocation_percentage: u8,
    pub start_date: Date,
    pub end_date: Option<Date>,
    pub role: String,
    pub status: AllocationStatus,
    /// Milliseconds since the Unix epoch.
    pub created_at: i64,
    /// Milliseconds since the Unix epoch.
    pub updated_at: i64,
    pub created_by: String,
}

/// The day an allocation ends, for comparing spans: its end, or a year after its start
/// where it has none.
pub open spec fn span_end(a: ResourceAllocation) -> int {
    match a.end_date {
        Some(e) => e.day(),
        None => a.start_date.day() + 365,
    }
}

/// Whether two allocations of the same resource overlap.
pub open spec fn allocations_overlap(a: ResourceAllocation, b: ResourceAllocation) -> bool {
    a.resource_id@ == b.resource_id@ && a.start_date.day() < span_end(b) && b.start_date.day() < span_end(a)
}

/// Whether the span end of an allocation is a date: it has an end, or its start lies a
/// year before the last date.
pub open spec fn span_end_exists(a: ResourceAllocation) -> bool {
    a.end_date is Some || a.start_date.day() + 365 <= MAX_DAY
}

/// Whether another allocation counts towards an allocation's total: another
/// allocation of the same resource, active and overlapping it.
pub open spec fn counts_towards(a: ResourceAllocation, o: ResourceAllocation) -> bool {
    o.id@ != a.id@ && o.status == AllocationStatus::Active && allocations_overlap(a, o)
}

/// The share of the first `k` other allocations that count towards an allocation.
pub open spec fn other_shares(a: ResourceAllocation, others: Seq<ResourceAllocation>, k: int) -> int
    decreases k,
{
    if k <= 0 {
        0
    } else {
        other_shares(a, others, k - 1) + if counts_towards(a, others[k - 1]) { others[k - 1].allocation_percentage as int } else { 0 }
    }
}

proof fn lemma_other_shares_mono(a: ResourceAllocation, others: Seq<ResourceAllocation>, i: int, k: int)
    requires
        0 <= i <= k,
    ensures
        0 <= other_shares(a, others, i) <= other_shares(a, others, k),
    decreases k,
{
    if k > i {
        lemma_other_shares_mono(a, others, i, k - 1);
    } else if k > 0 {
        lemma_other_shares_mono(a, others, k - 1, k - 1);
    }
}

impl ResourceAllocation {
    /// A planned allocation created now; refused where the share is not from 1 to
    /// 100, then where the role is blank.
    pub fn new(
        resource_id: String,
        task_id: String,
        project_id: String,
        allocation_percentage: u8,
        start_date: Date,
        end_date: Option<Date>,
        role: String,
        created_by: String,
    ) -> (r: Result<ResourceAllocation, DomainError>)
        ensures
            (allocation_percentage == 0 || allocation_percentage > 100) ==> (r matches Err(e)
                && e.is_validation("allocation_percentage"@, "Allocation percentage must be between 1 and 100"@)),
            1 <= allocation_percentage <= 100 && all_whitespace(role@) ==> (r matches Err(e)
                && e.is_validation("role"@, "Role cannot be empty"@)),
            1 <= allocation_percentage <= 100 && !all_whitespace(role@) ==> (r matches Ok(a) && {
                &&& a.id@.len() == 36
                &&& a.resource_id == resource_id && a.task_id == task_id && a.project_id == project_id
                &&& a.allocation_percentage == allocation_percentage
                &&& a.start_date == start_date && a.end_date == end_date
                &&& a.role == role && a.created_by == created_by
                &&& a.status == AllocationStatus::Planned
                &&& a.created_at == a.updated_at
            }),
    {
        if allocation_percentage == 0 || allocation_percentage > 100 {
            return Err(DomainError::validation("allocation_percentage", "Allocation percentage must be between 1 and 100"));
        }
        if is_blank(role.as_str()) {
            return Err(DomainError::validation("role", "Role cannot be empty"));
        }
        let now = now_millis();
        Ok(ResourceAllocation {
            id: uuid7_text(),
            resource_id,
            task_id,
            project_id,
            allocation_percentage,
            start_date,
            end_date,
            role,
            status: AllocationStatus::Planned,
            created_at: now,
            updated_at: now,
            created_by,
        })
    }

    /// Starts a planned allocation; refused otherwise.
    pub fn activate(&mut self) -> (r: Result<(), DomainError>)
        ensures
            old(self).status != AllocationStatus::Planned ==> (r matches Err(e)
                && e.is_validation("status"@, "Can only activate planned allocations"@) && *final(self) == *old(self)),
            old(self).status == AllocationStatus::Planned ==> r is Ok && *final(self) == (ResourceAllocation {
                status: AllocationStatus::Active,
                updated_at: final(self).updated_at,
                ..*old(self)
            }),
    {
        if self.status != AllocationStatus::Planned {
            return Err(DomainError::validation("status", "Can only activate planned allocations"));
        }
        self.status = AllocationStatus::Active;
        self.updated_at = now_millis();
        Ok(())
    }

    /// Completes an active allocation; refused otherwise.
    pub fn complete(&mut self) -> (r: Result<(), DomainError>)
        ensures
            old(self).status != AllocationStatus::Active ==> (r matches Err(e)
                && e.is_validation("status"@, "Can only complete active allocations"@) && *final(self) == *old(self)),
            old(self).status == AllocationStatus::Active ==> r is Ok && *final(self) == (ResourceAllocation {
                status: AllocationStatus::Completed,
                updated_at: final(self).updated_at,
                ..*old(self)
            }),
    {
        if self.status != AllocationStatus::Active {
            return Err(DomainError::validation("status", "Can only complete active allocations"));
        }
        self.status = AllocationStatus::Completed;
        self.updated_at = now_millis();
        Ok(())
    }

    /// Cancels an allocation that is not completed; refused for a completed one.
    pub fn cancel(&mut self) -> (r: Result<(), DomainError>)
        ensures
            old(self).status == AllocationStatus::Completed ==> (r matches Err(e)
                && e.is_validation("status"@, "Cannot cancel completed allocations"@) && *final(self) == *old(self)),
            old(self).status != AllocationStatus::Completed ==> r is Ok && *final(self) == (ResourceAllocation {
                status: AllocationStatus::Cancelled,
                updated_at: final(self).updated_at,
                ..*old(self)
            }),
    {
        if self.status == AllocationStatus::Completed {
            return Err(DomainError::validation("status", "Cannot cancel completed allocations"));
        }
        self.status = AllocationStatus::Cancelled;
        self.updated_at = now_millis();
        Ok(())
    }

    /// Whether the allocation is active.
    pub fn is_active(&self) -> (b: bool)
        ensures
            b == (self.status == AllocationStatus::Active),
    {
        self.status == AllocationStatus::Active
    }

    fn span_end_day(&self) -> (d: i64)
        requires
            self.start_date.wf(),
            span_end_exists(*self),
        ensures
            d == span_end(*self),
    {
        proof {
            self.start_date.lemma_in_range();
        }
        match self.end_date {
            Some(e) => e.day_number() as i64,
            None => self.start_date.day_number() as i64 + 365,
        }
    }

    /// Whether this allocation and another of the same resource overlap; an allocation
    /// without an end counts as lasting a year.
    pub fn is_overlapping(&self, other: &ResourceAllocation) -> (b: bool)
        requires
            self.start_date.wf(),
            other.start_date.wf(),
            span_end_exists(*self),
            span_end_exists(*other),
        ensures
            b == allocations_overlap(*self, *other),
    {
        if !str_eq(self.resource_id.as_str(), other.resource_id.as_str()) {
            return false;
        }
        let self_end = self.span_end_day();
        let other_end = other.span_end_day();
        (self.start_date.day_number() as i64) < other_end && (other.start_date.day_number() as i64) < self_end
    }

    /// The share of the resource's time that this allocation and the other active
    /// allocations of the resource that overlap it take.
    pub fn get_total_allocation_percentage(&self, other_allocations: &[ResourceAllocation]) -> (t: u8)
        requires
            self.start_date.wf(),
            span_end_exists(*self),
            forall|i: int| 0 <= i < other_allocations@.len() ==> (#[trigger] other_allocations@[i]).start_date.wf()
                && span_end_exists(other_allocations@[i]),
            self.allocation_percentage + other_shares(*self, other_allocations@, other_allocations@.len() as int) <= u8::MAX,
        ensures
            t == self.allocation_percentage + other_shares(*self, other_allocations@, other_allocations@.len() as int),
    {
        let ghost n = other_allocations@.len() as int;
        let mut total: u8 = self.allocation_percentage;
        let mut i: usize = 0;
        while i < other_allocations.len()
            invariant
                0 <= i <= other_allocations@.len(),
                n == other_allocations@.len(),
                self.start_date.wf(),
                span_end_exists(*self),
                forall|j: int| 0 <= j < other_allocations@.len() ==> (#[trigger] other_allocations@[j]).start_date.wf()
                    && span_end_exists(other_allocations@[j]),
                self.allocation_percentage + other_shares(*self, other_allocations@, n) <= u8::MAX,
                total == self.allocation_percentage + other_shares(*self, other_allocations@, i as int),
            decreases other_allocations.len() - i,
        {
            let o = &other_allocations[i];
            proof {
                lemma_other_shares_mono(*self, other_allocations@, i + 1, n);
            }
            if !str_eq(o.id.as_str(), self.id.as_str()) && str_eq(o.resource_id.as_str(), self.resource_id.as_str())
                && o.is_active() && self.is_overlapping(o) {
                total = total + o.allocation_percentage;
            }
            i = i + 1;
        }
        total
    }
}

/// What kind of conflict is found among allocations.
#[derive(Debug, Clone, Copy, PartialEq, Eq, Structural)]
pub enum ConflictType {
    OverAllocation,
    DoubleBooking,
    SkillMismatch,
    AvailabilityConflict,
    CostOverrun,
}

/// A way to resolve a conflict. Efforts and delays are in milliseconds.
#[derive(Debug, Clone, PartialEq, Eq)]
pub struct Resolution {
    pub id: String,
    pub description: String,
    pub action_required: String,
    pub estimated_effort: Option<i64>,
    pub timeline_impact: Option<i64>,
}

impl Resolution {
    /// A resolution with a new identifier.
    pub fn new(description: String, action_required: String, estimated_effort: Option<i64>, timeline_impact: Option<i64>) -> (r: Resolution)
        ensures
            r.id@.len() == 36,
            r.description == description,
            r.action_required == action_required,
            r.estimated_effort == estimated_effort,
            r.timeline_impact == timeline_impact,
    {
        Resolution { id: uuid7_text(), description, action_required, estimated_effort, timeline_impact }
    }
}

/// A conflict found among the allocations of a resource.
#[derive(Debug)]
pub struct AllocationConflict {
    pub id: String,
    pub resource_id: String,
    pub conflict_type: ConflictType,
    pub severity: ConflictSeverity,
    pub description: String,
    pub conflicting_allocations: Vec<String>,
    pub suggested_resolutions: Vec<Resolution>,
    /// Milliseconds since the Unix epoch.
    pub detected_at: i64,
}

impl AllocationConflict {
    /// A conflict found now, with a new identifier.
    pub fn new(
        resource_id: String,
        conflict_type: ConflictType,
        severity: ConflictSeverity,
        description: String,
        conflicting_allocations: Vec<String>,
        suggested_resolutions: Vec<Resolution>,
    ) -> (c: AllocationConflict)
        ensures
            c.id@.len() == 36,
            c.resource_id == resource_id,
            c.conflict_type == conflict_type,
            c.severity == severity,
            c.description == description,
            c.conflicting_allocations == conflicting_allocations,
            c.suggested_resolutions == suggested_resolutions,
    {
        AllocationConflict {
            id: uuid7_text(),
            resource_id,
            conflict_type,
            severity,
            description,
            conflicting_allocations,
            suggested_resolutions,
            detected_at: now_millis(),
        }
    }

    /// Adds a suggested resolution.
    pub fn add_resolution(&mut self, resolution: Resolution)
        ensures
            final(self).suggested_resolutions@ == old(self).suggested_resolutions@.push(resolution),
            *final(self) == (AllocationConflict { suggested_resolutions: final(self).suggested_resolutions, ..*old(self) }),
    {
        self.suggested_resolutions.push(resolution);
    }

    /// Whether the conflict is critical.
    pub fn is_critical(&self) -> (b: bool)
        ensures
            b == (self.severity == ConflictSeverity::Critical),
    {
        self.severity == ConflictSeverity::Critical
    }

    /// Whether the conflict needs action at once: it is high or critical.
    pub fn requires_immediate_action(&self) -> (b: bool)
        ensures
            b == (self.severity == ConflictSeverity::High || self.severity == ConflictSeverity::Critical),
    {
        self.severity == ConflictSeverity::High || self.severity == ConflictSeverity::Critical
    }
}

} // verus!
