//! Levelling of resource conflicts in a schedule: each conflict is resolved by a
//! shift, a rescheduling or a delay of the project, by its severity. Instants are
//! milliseconds since the Unix epoch and spans are milliseconds.

use vstd::prelude::*;
use crate::errors::DomainError;
use crate::project_management::advanced_dependencies::now_millis;
use crate::project_management::calculation_cache_system::string_views;
use crate::scheduling::critical_path::{num_days, whole_days};
use crate::scheduling::scheduler::{
    conflict_view, find_resource_from, find_scheduled, find_task_position, latest_early_finish, tasks_of,
    ConflictSeverity, ProjectSchedule, ResourceConflict, ScheduledTask, DAY_MILLIS,
};

verus! {

/// How a resource conflict was levelled.
#[derive(Debug, Clone, Copy, PartialEq, Eq, Structural)]
pub enum ResolutionMethod {
    MinorShift,
    Reschedule,
    ResourceReassignment,
    TaskBreakdown,
    ProjectDelay,
    Unknown,
}

/// The name of a value of `ResolutionMethod`.
pub open spec fn method_text(v: ResolutionMethod) -> Seq<char> {
    match v {
        ResolutionMethod::MinorShift => "Minor Time Shift"@,
        ResolutionMethod::Reschedule => "Reschedule Task"@,
        ResolutionMethod::ResourceReassignment => "Reassign Resource"@,
        ResolutionMethod::TaskBreakdown => "Break Down Task"@,
        ResolutionMethod::ProjectDelay => "Delay Project"@,
        ResolutionMethod::Unknown => "Unknown"@,
    }
}

impl ResolutionMethod {
    /// The readable name.
    pub fn to_string(&self) -> (s: String)
        ensures
            s@ == method_text(*self),
    {
        let t = match self {
            ResolutionMethod::MinorShift => "Minor Time Shift",
            ResolutionMethod::Reschedule => "Reschedule Task",
            ResolutionMethod::ResourceReassignment => "Reassign Resource",
            ResolutionMethod::TaskBreakdown => "Break Down Task",
            ResolutionMethod::ProjectDelay => "Delay Project",
            ResolutionMethod::Unknown => "Unknown",
        };
        String::from_str(t)
    }
}

/// How urgent a levelling recommendation is.
#[derive(Debug, Clone, Copy, PartialEq, Eq, Structural)]
pub enum RecommendationPriority {
    Low,
    Medium,
    High,
    Critical,
}

/// The name of a value of `RecommendationPriority`.
pub open spec fn leveling_priority_text(v: RecommendationPriority) -> Seq<char> {
    match v {
        RecommendationPriority::Low => "Low"@,
        RecommendationPriority::Medium => "Medium"@,
        RecommendationPriority::High => "High"@,
        RecommendationPriority::Critical => "Critical"@,
    }
}

impl RecommendationPriority {
    /// The readable name.
    pub fn to_string(&self) -> (s: String)
        ensures
            s@ == leveling_priority_text(*self),
    {
        let t = match self {
            RecommendationPriority::Low => "Low",
            RecommendationPriority::Medium => "Medium",
            RecommendationPriority::High => "High",
            RecommendationPriority::Critical => "Critical",
        };
        String::from_str(t)
    }
}

/// An hour in milliseconds.
pub const HOUR_MILLIS: i64 = 3_600_000i64;

/// How a conflict was resolved: the resource, the method, the delay in milliseconds,
/// a description, and the subtasks a task was broken into, if any.
#[derive(Debug, Clone, PartialEq, Eq)]
pub struct ConflictResolution {
    pub resource_id: String,
    pub method: ResolutionMethod,
    pub delay: i64,
    pub description: String,
    pub subtasks: Option<Vec<String>>,
}

impl ConflictResolution {
    /// A resolution of a conflict on the resource, not yet made.
    pub fn new(resource_id: String) -> (r: ConflictResolution)
        ensures
            r.resource_id == resource_id,
            r.method == ResolutionMethod::Unknown,
            r.delay == 0,
            r.description@ == Seq::<char>::empty(),
            r.subtasks is None,
    {
        ConflictResolution {
            resource_id,
            method: ResolutionMethod::Unknown,
            delay: 0,
            description: String::new(),
            subtasks: None,
        }
    }
}

/// A conflict that could not be resolved, with the message of the error.
#[derive(Debug, Clone, PartialEq, Eq)]
pub struct FailedResolution {
    pub conflict: ResourceConflict,
    pub error: String,
}

/// The outcome of levelling: whether every conflict was resolved, how many were, the
/// delay they added in milliseconds, the resolutions, and the failures.
#[derive(Debug, Clone, PartialEq, Eq)]
pub struct ResourceLevelingResult {
    pub success: bool,
    pub conflicts_resolved: usize,
    pub total_delay: i64,
    pub resolutions: Vec<ConflictResolution>,
    pub failed_resolutions: Vec<FailedResolution>,
}

impl ResourceLevelingResult {
    /// An outcome with nothing resolved yet.
    pub fn new() -> (r: ResourceLevelingResult)
        ensures
            !r.success,
            r.conflicts_resolved == 0,
            r.total_delay == 0,
            r.resolutions@.len() == 0,
            r.failed_resolutions@.len() == 0,
    {
        ResourceLevelingResult {
            success: false,
            conflicts_resolved: 0,
            total_delay: 0,
            resolutions: Vec::new(),
            failed_resolutions: Vec::new(),
        }
    }
}

impl Default for ResourceLevelingResult {
    fn default() -> (r: Self)
        ensures
            !r.success,
            r.conflicts_resolved == 0,
            r.total_delay == 0,
            r.resolutions@.len() == 0,
            r.failed_resolutions@.len() == 0,
    {
        Self::new()
    }
}

/// The task shifted by `d` milliseconds, early and late.
pub open spec fn shifted(t: ScheduledTask, d: int) -> ScheduledTask {
    ScheduledTask {
        early_start: (t.early_start + d) as i64,
        early_finish: (t.early_finish + d) as i64,
        late_start: (t.late_start + d) as i64,
        late_finish: (t.late_finish + d) as i64,
        ..t
    }
}

/// Whether shifting the task by `d` milliseconds stays within `i64`.
pub open spec fn shift_fits(t: ScheduledTask, d: int) -> bool {
    &&& i64::MIN <= t.early_start + d <= i64::MAX
    &&& i64::MIN <= t.early_finish + d <= i64::MAX
    &&& i64::MIN <= t.late_start + d <= i64::MAX
    &&& i64::MIN <= t.late_finish + d <= i64::MAX
}

/// How unwelcome rescheduling a task is: its whole days of slack, and a thousand more
/// for a critical task. Lower is better.
pub open spec fn reschedule_score(t: ScheduledTask) -> int {
    whole_days(t.total_slack as int) + if t.is_critical { 1000int } else { 0int }
}

/// The task to reschedule among those named from position `i` on, with the best so
/// far: the first of those in the schedule with the lowest score.
pub open spec fn best_from(tasks: Seq<ScheduledTask>, ids: Seq<Seq<char>>, i: int, best: Option<(Seq<char>, int)>) -> Option<Seq<char>>
    decreases ids.len() - i,
{
    if i < 0 || i >= ids.len() {
        match best {
            Some(b) => Some(b.0),
            None => None,
        }
    } else {
        match find_scheduled(tasks, ids[i]) {
            Some(j) => {
                let sc = reschedule_score(tasks[j]);
                match best {
                    Some(b) => if sc < b.1 {
                        best_from(tasks, ids, i + 1, Some((ids[i], sc)))
                    } else {
                        best_from(tasks, ids, i + 1, best)
                    },
                    None => best_from(tasks, ids, i + 1, Some((ids[i], sc))),
                }
            },
            None => best_from(tasks, ids, i + 1, best),
        }
    }
}

/// When a resource is next free: an hour after the latest early finish of its tasks;
/// `now` where it has none.
pub open spec fn next_slot(tasks: Seq<ScheduledTask>, assignments: Seq<(String, Vec<String>)>, rid: Seq<char>, now: i64) -> int {
    let mine = match find_resource_from(assignments, rid, 0) {
        Some(k) => tasks_of(tasks, assignments[k].1@),
        None => Seq::empty(),
    };
    if mine.len() == 0 { now as int } else { latest_early_finish(mine)->0 + HOUR_MILLIS }
}

/// A resolution as plain values: method, delay and description.
pub type ResolutionView = (ResolutionMethod, int, Seq<char>);

/// The plain values of a resolution made on a conflict's resource.
pub open spec fn resolution_view(r: ConflictResolution) -> ResolutionView {
    (r.method, r.delay as int, r.description@)
}

/// The message of the error for a conflict with no task to reschedule.
pub open spec fn no_task_message() -> Seq<char> {
    "Validation error on 'conflict_resolution': No suitable task found for rescheduling"@
}

/// The state that levelling changes: the tasks, and the start and end of the project.
pub type LevelState = (Seq<ScheduledTask>, int, int);

/// Resolving a conflict by rescheduling the best of its tasks to the next free slot of
/// its resource; refused where none of its tasks is in the schedule.
pub open spec fn reschedule(st: LevelState, assignments: Seq<(String, Vec<String>)>, c: ResourceConflict, now: i64) -> (LevelState, Result<ResolutionView, Seq<char>>) {
    let tasks = st.0;
    match best_from(tasks, string_views(c.conflicting_tasks@), 0, None) {
        None => (st, Err(no_task_message())),
        Some(b) => {
            let ns = next_slot(tasks, assignments, c.resource_id@, now);
            match find_scheduled(tasks, b) {
                Some(i) => {
                    let t = tasks[i];
                    let delay = ns - t.early_start;
                    let t2 = ScheduledTask {
                        early_start: ns as i64,
                        early_finish: (ns + t.duration) as i64,
                        late_start: (t.late_start + delay) as i64,
                        late_finish: (t.late_finish + delay) as i64,
                        ..t
                    };
                    ((tasks.update(i, t2), st.1, st.2), Ok((ResolutionMethod::Reschedule, delay, "Rescheduled task "@ + b + " to resolve conflict"@)))
                },
                None => (st, Ok((ResolutionMethod::Unknown, 0, Seq::empty()))),
            }
        },
    }
}

/// Whether rescheduling stays within `i64`.
pub open spec fn reschedule_fits(st: LevelState, assignments: Seq<(String, Vec<String>)>, c: ResourceConflict, now: i64) -> bool {
    let tasks = st.0;
    match best_from(tasks, string_views(c.conflicting_tasks@), 0, None) {
        None => true,
        Some(b) => {
            let ns = next_slot(tasks, assignments, c.resource_id@, now);
            &&& i64::MIN <= ns <= i64::MAX
            &&& match find_scheduled(tasks, b) {
                Some(i) => {
                    let t = tasks[i];
                    let delay = ns - t.early_start;
                    &&& i64::MIN <= delay <= i64::MAX
                    &&& i64::MIN <= ns + t.duration <= i64::MAX
                    &&& i64::MIN <= t.late_start + delay <= i64::MAX
                    &&& i64::MIN <= t.late_finish + delay <= i64::MAX
                },
                None => true,
            }
        },
    }
}

/// Resolving one conflict, by its severity: a low one shifts its first task by an hour;
/// a medium or high one reschedules its best task; a critical one delays the whole
/// project by a day. A conflict without tasks is resolved by nothing.
pub open spec fn resolve(st: LevelState, assignments: Seq<(String, Vec<String>)>, c: ResourceConflict, now: i64) -> (LevelState, Result<ResolutionView, Seq<char>>) {
    let tasks = st.0;
    let nothing: Result<ResolutionView, Seq<char>> = Ok((ResolutionMethod::Unknown, 0, Seq::empty()));
    match c.severity {
        ConflictSeverity::Low => if c.conflicting_tasks@.len() == 0 {
            (st, nothing)
        } else {
            match find_scheduled(tasks, c.conflicting_tasks@[0]@) {
                Some(i) => ((tasks.update(i, shifted(tasks[i], HOUR_MILLIS as int)), st.1, st.2), Ok((
                    ResolutionMethod::MinorShift,
                    HOUR_MILLIS as int,
                    "Minor time shift to resolve low-severity conflict"@,
                ))),
                None => (st, nothing),
            }
        },
        ConflictSeverity::Medium => reschedule(st, assignments, c, now),
        ConflictSeverity::High => reschedule(st, assignments, c, now),
        ConflictSeverity::Critical => if c.conflicting_tasks@.len() == 0 {
            (st, nothing)
        } else {
            (
                (tasks.map_values(|t: ScheduledTask| shifted(t, DAY_MILLIS as int)), st.1 + DAY_MILLIS, st.2 + DAY_MILLIS),
                Ok((ResolutionMethod::ProjectDelay, DAY_MILLIS as int, "Delayed entire project to resolve critical conflict"@)),
            )
        },
    }
}

/// Whether resolving the conflict stays within `i64`.
pub open spec fn resolve_fits(st: LevelState, assignments: Seq<(String, Vec<String>)>, c: ResourceConflict, now: i64) -> bool {
    let tasks = st.0;
    match c.severity {
        ConflictSeverity::Low => c.conflicting_tasks@.len() > 0 ==> match find_scheduled(tasks, c.conflicting_tasks@[0]@) {
            Some(i) => shift_fits(tasks[i], HOUR_MILLIS as int),
            None => true,
        },
        ConflictSeverity::Medium => reschedule_fits(st, assignments, c, now),
        ConflictSeverity::High => reschedule_fits(st, assignments, c, now),
        ConflictSeverity::Critical => c.conflicting_tasks@.len() > 0 ==> {
            &&& forall|i: int| 0 <= i < tasks.len() ==> shift_fits(#[trigger] tasks[i], DAY_MILLIS as int)
            &&& i64::MIN <= st.1 + DAY_MILLIS <= i64::MAX
            &&& i64::MIN <= st.2 + DAY_MILLIS <= i64::MAX
        },
    }
}

/// Resolving the conflicts in order from a state: the state after them and the outcome
/// of each.
pub open spec fn level_run(st: LevelState, assignments: Seq<(String, Vec<String>)>, cs: Seq<ResourceConflict>, now: i64) -> (LevelState, Seq<Result<ResolutionView, Seq<char>>>)
    decreases cs.len(),
{
    if cs.len() == 0 {
        (st, Seq::empty())
    } else {
        let (st1, outs) = level_run(st, assignments, cs.drop_last(), now);
        let (st2, o) = resolve(st1, assignments, cs.last(), now);
        (st2, outs.push(o))
    }
}

/// Whether resolving the conflicts in order stays within `i64` at every step.
pub open spec fn level_fits(st: LevelState, assignments: Seq<(String, Vec<String>)>, cs: Seq<ResourceConflict>, now: i64) -> bool {
    forall|i: int| 0 <= i < cs.len() ==> resolve_fits(#[trigger] level_run(st, assignments, cs.take(i), now).0, assignments, cs[i], now)
}

/// The number of outcomes that are resolutions.
pub open spec fn ok_count(outs: Seq<Result<ResolutionView, Seq<char>>>) -> nat
    decreases outs.len(),
{
    if outs.len() == 0 {
        0
    } else {
        ok_count(outs.drop_last()) + if outs.last() is Ok { 1nat } else { 0nat }
    }
}

/// The sum of the delays of the outcomes that are resolutions.
pub open spec fn ok_delay_sum(outs: Seq<Result<ResolutionView, Seq<char>>>) -> int
    decreases outs.len(),
{
    if outs.len() == 0 {
        0
    } else {
        ok_delay_sum(outs.drop_last()) + match outs.last() {
            Ok(v) => v.1,
            Err(_) => 0,
        }
    }
}

/// The resolutions among the outcomes, each with the resource of its conflict.
pub open spec fn ok_views(cs: Seq<ResourceConflict>, outs: Seq<Result<ResolutionView, Seq<char>>>) -> Seq<(Seq<char>, ResolutionView)>
    decreases outs.len(),
{
    if outs.len() == 0 {
        Seq::empty()
    } else {
        let r = ok_views(cs, outs.drop_last());
        match outs.last() {
            Ok(v) => r.push((cs[outs.len() - 1].resource_id@, v)),
            Err(_) => r,
        }
    }
}

/// The failures among the outcomes, each with its conflict and message.
pub open spec fn failed_views(cs: Seq<ResourceConflict>, outs: Seq<Result<ResolutionView, Seq<char>>>) -> Seq<(ConflictViewOf, Seq<char>)>
    decreases outs.len(),
{
    if outs.len() == 0 {
        Seq::empty()
    } else {
        let r = failed_views(cs, outs.drop_last());
        match outs.last() {
            Ok(_) => r,
            Err(m) => r.push((conflict_view(cs[outs.len() - 1]), m)),
        }
    }
}

/// A conflict as plain values.
pub type ConflictViewOf = (Seq<char>, Seq<Seq<char>>, crate::scheduling::scheduler::TimeRange, ConflictSeverity, Option<Seq<char>>);

/// Whether the delays of the resolutions, summed in order, stay within the range of a
/// `chrono::Duration`.
pub open spec fn delays_fit(outs: Seq<Result<ResolutionView, Seq<char>>>) -> bool {
    forall|i: int| 0 <= i <= outs.len() ==> -i64::MAX <= #[trigger] ok_delay_sum(outs.take(i)) <= i64::MAX
}

/// The state of a schedule that levelling changes.
pub open spec fn level_state(s: ProjectSchedule) -> LevelState {
    (s.tasks@, s.start_date as int, s.end_date as int)
}

/// Levelling of the resource conflicts of a schedule.
#[derive(Debug)]
pub struct ResourceLeveler {
    pub schedule: ProjectSchedule,
}

/// Whether only the tasks and the dates of the project may differ between two
/// schedules.
pub open spec fn same_but_dates(a: ProjectSchedule, b: ProjectSchedule) -> bool {
    &&& a.project_id == b.project_id
    &&& a.critical_path == b.critical_path
    &&& a.total_duration == b.total_duration
    &&& a.resource_assignments == b.resource_assignments
    &&& a.conflicts == b.conflicts
}

impl ResourceLeveler {
    /// A leveller of the schedule.
    pub fn new(schedule: ProjectSchedule) -> (l: ResourceLeveler)
        ensures
            l.schedule == schedule,
    {
        ResourceLeveler { schedule }
    }

    /// Whether a task waits for another: the leveller knows of no dependencies.
    fn has_dependency(&self, predecessor_id: &str, successor_id: &str) -> (b: bool)
        ensures
            !b,
    {
        false
    }

    /// The penalty for rescheduling a task, ten for each task that waits for it.
    fn calculate_dependency_penalty(&self, task_id: &str) -> (p: i64)
        ensures
            p == 0,
    {
        let mut count: i64 = 0;
        let mut i: usize = 0;
        while i < self.schedule.tasks.len()
            invariant
                0 <= i <= self.schedule.tasks@.len(),
                count == 0,
            decreases self.schedule.tasks.len() - i,
        {
            if self.has_dependency(task_id, self.schedule.tasks[i].task_id.as_str()) {
                count = count + 1;
            }
            i = i + 1;
        }
        count * 10
    }

    fn calculate_reschedule_score(&self, task: &ScheduledTask) -> (s: i64)
        ensures
            s == reschedule_score(*task),
    {
        let slack_score = num_days(task.total_slack);
        let dependency_penalty = self.calculate_dependency_penalty(task.task_id.as_str());
        let critical_penalty: i64 = if task.is_critical { 1000 } else { 0 };
        slack_score + dependency_penalty + critical_penalty
    }

    fn find_best_task_to_reschedule(&self, conflict: &ResourceConflict) -> (r: Result<String, DomainError>)
        ensures
            match best_from(self.schedule.tasks@, string_views(conflict.conflicting_tasks@), 0, None) {
                Some(b) => r matches Ok(x) && x@ == b,
                None => r matches Err(e) && e.text() == no_task_message(),
            },
    {
        proof {
            reveal_strlit("conflict_resolution");
            reveal_strlit("No suitable task found for rescheduling");
        }
        let ghost ids = string_views(conflict.conflicting_tasks@);
        let ghost tasks = self.schedule.tasks@;
        let mut best: Option<(usize, i64)> = None;
        let mut i: usize = 0;
        while i < conflict.conflicting_tasks.len()
            invariant
                0 <= i <= conflict.conflicting_tasks@.len(),
                ids == string_views(conflict.conflicting_tasks@),
                tasks == self.schedule.tasks@,
                best matches Some(b) ==> b.0 < i,
                best_from(tasks, ids, 0, None) == best_from(tasks, ids, i as int, match best {
                    Some(b) => Some((ids[b.0 as int], b.1 as int)),
                    None => None,
                }),
            decreases conflict.conflicting_tasks.len() - i,
        {
            proof {
                assert(ids[i as int] == conflict.conflicting_tasks@[i as int]@);
            }
            match self.schedule.get_task(conflict.conflicting_tasks[i].as_str()) {
                Some(t) => {
                    let sc = self.calculate_reschedule_score(t);
                    best = match best {
                        Some(b) => if sc < b.1 { Some((i, sc)) } else { Some(b) },
                        None => Some((i, sc)),
                    };
                },
                None => {},
            }
            i = i + 1;
        }
        proof {
            assert(best_from(tasks, ids, i as int, match best {
                Some(b) => Some((ids[b.0 as int], b.1 as int)),
                None => None,
            }) == match best {
                Some(b) => Some(ids[b.0 as int]),
                None => None::<Seq<char>>,
            });
        }
        match best {
            Some(b) => {
                assert(ids[b.0 as int] == conflict.conflicting_tasks@[b.0 as int]@);
                let x = conflict.conflicting_tasks[b.0].clone();
                assert(x@ == ids[b.0 as int]);
                assert(best_from(tasks, ids, 0, None) == Some(ids[b.0 as int]));
                assert(best_from(self.schedule.tasks@, string_views(conflict.conflicting_tasks@), 0, None) == Some(x@));
                Ok(x)
            },
            None => {
                let e = DomainError::validation("conflict_resolution", "No suitable task found for rescheduling");
                proof {
                    reveal_strlit("Validation error on '");
                    reveal_strlit("': ");
                    reveal_strlit("Validation error on 'conflict_resolution': No suitable task found for rescheduling");
                    assert(e.text() =~= no_task_message());
                }
                Err(e)
            },
        }
    }

    fn find_next_available_slot(&self, resource_id: &str, now: i64) -> (t: i64)
        requires
            i64::MIN <= next_slot(self.schedule.tasks@, self.schedule.resource_assignments@, resource_id@, now) <= i64::MAX,
        ensures
            t == next_slot(self.schedule.tasks@, self.schedule.resource_assignments@, resource_id@, now),
    {
        let mine = self.schedule.get_tasks_by_resource(resource_id);
        if mine.len() == 0 {
            return now;
        }
        let ghost ms = mine@.map_values(|t: &ScheduledTask| *t);
        let mut latest: i64 = mine[0].early_finish;
        let mut i: usize = 1;
        proof {
            assert(ms.take(1).drop_last() =~= Seq::<ScheduledTask>::empty());
            assert(ms.take(1).last() == ms[0]);
            assert(ms[0] == *mine@[0]);
            assert(latest_early_finish(Seq::<ScheduledTask>::empty()) is None);
            assert(latest_early_finish(ms.take(1)) == Some(ms[0].early_finish as int));
        }
        while i < mine.len()
            invariant
                1 <= i <= mine@.len(),
                ms == mine@.map_values(|t: &ScheduledTask| *t),
                latest == latest_early_finish(ms.take(i as int))->0,
                latest_early_finish(ms.take(i as int)) is Some,
            decreases mine.len() - i,
        {
            proof {
                assert(ms.take(i as int + 1).drop_last() =~= ms.take(i as int));
            }
            if mine[i].early_finish > latest {
                latest = mine[i].early_finish;
            }
            i = i + 1;
        }
        proof {
            assert(ms.take(ms.len() as int) =~= ms);
            match find_resource_from(self.schedule.resource_assignments@, resource_id@, 0) {
                Some(k) => {
                    assert(ms =~= tasks_of(self.schedule.tasks@, self.schedule.resource_assignments@[k].1@));
                },
                None => {},
            }
        }
        latest + HOUR_MILLIS
    }

    /// Another resource for the work of one: none is known to the leveller.
    fn find_alternative_resource(&self, current_resource_id: &str) -> (r: Option<String>)
        ensures
            r is None,
    {
        None
    }

    /// Breaking a task into subtasks: not done by the leveller.
    fn break_down_task(&self, task_id: &str) -> (r: Result<Option<Vec<String>>, DomainError>)
        ensures
            r matches Ok(x) && x is None,
    {
        Ok(None)
    }

    /// Moves every task and the project by `delay` milliseconds.
    fn delay_project(&mut self, delay: i64)
        requires
            forall|i: int| 0 <= i < old(self).schedule.tasks@.len() ==> shift_fits(#[trigger] old(self).schedule.tasks@[i], delay as int),
            i64::MIN <= old(self).schedule.start_date + delay <= i64::MAX,
            i64::MIN <= old(self).schedule.end_date + delay <= i64::MAX,
        ensures
            final(self).schedule.tasks@ == old(self).schedule.tasks@.map_values(|t: ScheduledTask| shifted(t, delay as int)),
            final(self).schedule.start_date == old(self).schedule.start_date + delay,
            final(self).schedule.end_date == old(self).schedule.end_date + delay,
            same_but_dates(final(self).schedule, old(self).schedule),
    {
        let ghost t0 = self.schedule.tasks@;
        let mut i: usize = 0;
        while i < self.schedule.tasks.len()
            invariant
                0 <= i <= self.schedule.tasks@.len(),
                self.schedule.tasks@.len() == t0.len(),
                t0 == old(self).schedule.tasks@,
                forall|j: int| 0 <= j < t0.len() ==> shift_fits(#[trigger] t0[j], delay as int),
                forall|j: int| 0 <= j < i ==> self.schedule.tasks@[j] == #[trigger] shifted(t0[j], delay as int),
                forall|j: int| i <= j < t0.len() ==> self.schedule.tasks@[j] == t0[j],
                self.schedule.start_date == old(self).schedule.start_date,
                self.schedule.end_date == old(self).schedule.end_date,
                same_but_dates(self.schedule, old(self).schedule),
            decreases self.schedule.tasks.len() - i,
        {
            assert(self.schedule.tasks@[i as int] == t0[i as int]);
            assert(shift_fits(t0[i as int], delay as int));
            self.schedule.tasks[i].early_start = self.schedule.tasks[i].early_start + delay;
            self.schedule.tasks[i].early_finish = self.schedule.tasks[i].early_finish + delay;
            self.schedule.tasks[i].late_start = self.schedule.tasks[i].late_start + delay;
            self.schedule.tasks[i].late_finish = self.schedule.tasks[i].late_finish + delay;
            i = i + 1;
        }
        self.schedule.start_date = self.schedule.start_date + delay;
        self.schedule.end_date = self.schedule.end_date + delay;
        assert(self.schedule.tasks@ =~= t0.map_values(|t: ScheduledTask| shifted(t, delay as int)));
    }
}

/// What resolving a conflict does to a leveller and hands back.
pub open spec fn resolved(before: ResourceLeveler, after: ResourceLeveler, c: ResourceConflict, now: i64, r: Result<ConflictResolution, DomainError>) -> bool {
    let (st, o) = resolve(level_state(before.schedule), before.schedule.resource_assignments@, c, now);
    &&& level_state(after.schedule) == st
    &&& same_but_dates(after.schedule, before.schedule)
    &&& match o {
        Ok(v) => r matches Ok(res) && res.resource_id@ == c.resource_id@ && resolution_view(res) == v && res.subtasks is None,
        Err(m) => r matches Err(e) && e.text() == m,
    }
}

impl ResourceLeveler {
    fn resolve_low_severity_conflict(&mut self, conflict: &ResourceConflict) -> (r: Result<ConflictResolution, DomainError>)
        requires
            conflict.severity == ConflictSeverity::Low,
            resolve_fits(level_state(old(self).schedule), old(self).schedule.resource_assignments@, *conflict, 0),
        ensures
            resolved(*old(self), *final(self), *conflict, 0, r),
    {
        proof {
            reveal_strlit("Minor time shift to resolve low-severity conflict");
        }
        let mut resolution = ConflictResolution::new(conflict.resource_id.clone());
        if conflict.conflicting_tasks.len() > 0 {
            match find_task_position(&self.schedule.tasks, conflict.conflicting_tasks[0].as_str()) {
                Some(i) => {
                    let shift = HOUR_MILLIS;
                    let ghost t0 = self.schedule.tasks@;
                    self.schedule.tasks[i].early_start = self.schedule.tasks[i].early_start + shift;
                    self.schedule.tasks[i].early_finish = self.schedule.tasks[i].early_finish + shift;
                    self.schedule.tasks[i].late_start = self.schedule.tasks[i].late_start + shift;
                    self.schedule.tasks[i].late_finish = self.schedule.tasks[i].late_finish + shift;
                    assert(self.schedule.tasks@ =~= t0.update(i as int, shifted(t0[i as int], HOUR_MILLIS as int)));
                    resolution.delay = shift;
                    resolution.method = ResolutionMethod::MinorShift;
                    resolution.description = String::from_str("Minor time shift to resolve low-severity conflict");
                },
                None => {},
            }
        }
        Ok(resolution)
    }

    fn resolve_medium_severity_conflict(&mut self, conflict: &ResourceConflict, now: i64) -> (r: Result<ConflictResolution, DomainError>)
        requires
            reschedule_fits(level_state(old(self).schedule), old(self).schedule.resource_assignments@, *conflict, now),
        ensures
            ({
                let (st, o) = reschedule(level_state(old(self).schedule), old(self).schedule.resource_assignments@, *conflict, now);
                &&& level_state(final(self).schedule) == st
                &&& same_but_dates(final(self).schedule, old(self).schedule)
                &&& match o {
                    Ok(v) => r matches Ok(res) && res.resource_id@ == conflict.resource_id@ && resolution_view(res) == v && res.subtasks is None,
                    Err(m) => r matches Err(e) && e.text() == m,
                }
            }),
    {
        proof {
            reveal_strlit("Rescheduled task ");
            reveal_strlit(" to resolve conflict");
        }
        let mut resolution = ConflictResolution::new(conflict.resource_id.clone());
        let best_task = match self.find_best_task_to_reschedule(conflict) {
            Ok(b) => b,
            Err(e) => {
                return Err(e);
            },
        };
        let new_start = self.find_next_available_slot(conflict.resource_id.as_str(), now);
        match find_task_position(&self.schedule.tasks, best_task.as_str()) {
            Some(i) => {
                let ghost t0 = self.schedule.tasks@;
                let delay = new_start - self.schedule.tasks[i].early_start;
                let duration = self.schedule.tasks[i].duration;
                self.schedule.tasks[i].early_start = new_start;
                self.schedule.tasks[i].early_finish = new_start + duration;
                self.schedule.tasks[i].late_start = self.schedule.tasks[i].late_start + delay;
                self.schedule.tasks[i].late_finish = self.schedule.tasks[i].late_finish + delay;
                resolution.delay = delay;
                resolution.method = ResolutionMethod::Reschedule;
                resolution.description = String::from_str("Rescheduled task ").concat(best_task.as_str()).concat(
                    " to resolve conflict",
                );
                proof {
                    let t = t0[i as int];
                    assert(self.schedule.tasks@ =~= t0.update(i as int, ScheduledTask {
                        early_start: new_start,
                        early_finish: (new_start + t.duration) as i64,
                        late_start: (t.late_start + delay) as i64,
                        late_finish: (t.late_finish + delay) as i64,
                        ..t
                    }));
                }
            },
            None => {},
        }
        Ok(resolution)
    }

    fn resolve_high_severity_conflict(&mut self, conflict: &ResourceConflict, now: i64) -> (r: Result<ConflictResolution, DomainError>)
        requires
            conflict.severity == ConflictSeverity::High,
            resolve_fits(level_state(old(self).schedule), old(self).schedule.resource_assignments@, *conflict, now),
        ensures
            resolved(*old(self), *final(self), *conflict, now, r),
    {
        match self.find_alternative_resource(conflict.resource_id.as_str()) {
            Some(alternative) => {
                let resolution = ConflictResolution::new(conflict.resource_id.clone());
                Ok(resolution)
            },
            None => self.resolve_medium_severity_conflict(conflict, now),
        }
    }

    fn resolve_critical_severity_conflict(&mut self, conflict: &ResourceConflict) -> (r: Result<ConflictResolution, DomainError>)
        requires
            conflict.severity == ConflictSeverity::Critical,
            resolve_fits(level_state(old(self).schedule), old(self).schedule.resource_assignments@, *conflict, 0),
        ensures
            resolved(*old(self), *final(self), *conflict, 0, r),
    {
        proof {
            reveal_strlit("Delayed entire project to resolve critical conflict");
        }
        let mut resolution = ConflictResolution::new(conflict.resource_id.clone());
        if conflict.conflicting_tasks.len() > 0 {
            match self.break_down_task(conflict.conflicting_tasks[0].as_str()) {
                Ok(Some(breakdown)) => {
                    resolution.method = ResolutionMethod::TaskBreakdown;
                    resolution.subtasks = Some(breakdown);
                },
                Ok(None) => {
                    let delay = DAY_MILLIS;
                    self.delay_project(delay);
                    resolution.delay = delay;
                    resolution.method = ResolutionMethod::ProjectDelay;
                    resolution.description = String::from_str("Delayed entire project to resolve critical conflict");
                },
                Err(e) => {
                    return Err(e);
                },
            }
        }
        Ok(resolution)
    }

    fn resolve_conflict(&mut self, conflict: &ResourceConflict, now: i64) -> (r: Result<ConflictResolution, DomainError>)
        requires
            resolve_fits(level_state(old(self).schedule), old(self).schedule.resource_assignments@, *conflict, now),
        ensures
            resolved(*old(self), *final(self), *conflict, now, r),
    {
        match conflict.severity {
            ConflictSeverity::Low => self.resolve_low_severity_conflict(conflict),
            ConflictSeverity::Medium => self.resolve_medium_severity_conflict(conflict, now),
            ConflictSeverity::High => self.resolve_high_severity_conflict(conflict, now),
            ConflictSeverity::Critical => self.resolve_critical_severity_conflict(conflict),
        }
    }
}

/// Resolving conflicts one after another is resolving the first ones, then the next.
pub proof fn lemma_level_run_step(st: LevelState, assignments: Seq<(String, Vec<String>)>, cs: Seq<ResourceConflict>, now: i64, i: int)
    requires
        0 <= i < cs.len(),
    ensures
        level_run(st, assignments, cs.take(i + 1), now) == ({
            let (st1, outs) = level_run(st, assignments, cs.take(i), now);
            let (st2, o) = resolve(st1, assignments, cs[i], now);
            (st2, outs.push(o))
        }),
{
    assert(cs.take(i + 1).drop_last() =~= cs.take(i));
    assert(cs.take(i + 1).last() == cs[i]);
}

/// Whether levelling at the instant `now` stays within `i64`, in its dates and in its
/// sum of delays.
pub open spec fn can_level(l: ResourceLeveler, now: i64) -> bool {
    &&& level_fits(level_state(l.schedule), l.schedule.resource_assignments@, l.schedule.conflicts@, now)
    &&& delays_fit(level_run(level_state(l.schedule), l.schedule.resource_assignments@, l.schedule.conflicts@, now).1)
}

/// What levelling at the instant `now` does: the dates move as resolving the conflicts
/// in order moves them, and the outcome gathers the resolutions and failures.
pub open spec fn leveled_at(before: ResourceLeveler, after: ResourceLeveler, now: i64, r: Result<ResourceLevelingResult, DomainError>) -> bool {
    let (st, outs) = level_run(level_state(before.schedule), before.schedule.resource_assignments@, before.schedule.conflicts@, now);
    &&& level_state(after.schedule) == st
    &&& same_but_dates(after.schedule, before.schedule)
    &&& r matches Ok(res) && leveled(res, before.schedule.conflicts@, outs)
}

/// What levelling at the instant `now` hands back for the conflicts of a schedule.
pub open spec fn leveled(r: ResourceLevelingResult, cs: Seq<ResourceConflict>, outs: Seq<Result<ResolutionView, Seq<char>>>) -> bool {
    &&& r.resolutions@.map_values(|x: ConflictResolution| (x.resource_id@, resolution_view(x))) == ok_views(cs, outs)
    &&& forall|i: int| 0 <= i < r.resolutions@.len() ==> (#[trigger] r.resolutions@[i]).subtasks is None
    &&& r.failed_resolutions@.map_values(|x: FailedResolution| (conflict_view(x.conflict), x.error@)) == failed_views(cs, outs)
    &&& r.conflicts_resolved == ok_count(outs)
    &&& r.total_delay == ok_delay_sum(outs)
    &&& r.success == (failed_views(cs, outs).len() == 0)
}

impl ResourceLeveler {
    /// Resolves the conflicts of the schedule in order at the instant `now`, each by its
    /// severity; a conflict with no task to reschedule is recorded as a failure.
    pub fn level_resources_at(&mut self, now: i64) -> (r: Result<ResourceLevelingResult, DomainError>)
        requires
            can_level(*old(self), now),
        ensures
            leveled_at(*old(self), *final(self), now, r),
    {
        let ghost st0 = level_state(self.schedule);
        let ghost asg = self.schedule.resource_assignments@;
        let ghost cs = self.schedule.conflicts@;
        let ghost all = level_run(st0, asg, cs, now).1;
        let mut result = ResourceLevelingResult::new();
        let mut resolved_count: usize = 0;
        let mut total_delay: i64 = 0;
        let mut i: usize = 0;
        proof {
            assert(cs.take(0) =~= Seq::<ResourceConflict>::empty());
            assert(result.resolutions@.map_values(|x: ConflictResolution| (x.resource_id@, resolution_view(x))) =~= Seq::<(Seq<char>, ResolutionView)>::empty());
            assert(result.failed_resolutions@.map_values(|x: FailedResolution| (conflict_view(x.conflict), x.error@)) =~= Seq::<(ConflictViewOf, Seq<char>)>::empty());
        }
        while i < self.schedule.conflicts.len()
            invariant
                0 <= i <= cs.len(),
                cs == self.schedule.conflicts@,
                asg == self.schedule.resource_assignments@,
                same_but_dates(self.schedule, old(self).schedule),
                st0 == level_state(old(self).schedule),
                cs == old(self).schedule.conflicts@,
                asg == old(self).schedule.resource_assignments@,
                all == level_run(st0, asg, cs, now).1,
                level_fits(st0, asg, cs, now),
                delays_fit(all),
                level_state(self.schedule) == level_run(st0, asg, cs.take(i as int), now).0,
                leveled_so_far(result, resolved_count, total_delay, cs, level_run(st0, asg, cs.take(i as int), now).1),
                level_run(st0, asg, cs.take(i as int), now).1 == all.take(i as int),
            decreases cs.len() - i,
        {
            let conflict = self.schedule.conflicts[i].clone();
            proof {
                lemma_level_run_step(st0, asg, cs, now, i as int);
                lemma_level_run_prefix(st0, asg, cs, now, i as int + 1);
                assert(resolve_fits(level_run(st0, asg, cs.take(i as int), now).0, asg, cs[i as int], now));
                lemma_resolve_view(level_run(st0, asg, cs.take(i as int), now).0, asg, cs[i as int], conflict, now);
            }
            let ghost outs0 = level_run(st0, asg, cs.take(i as int), now).1;
            let res = self.resolve_conflict(&conflict, now);
            let ghost o = resolve(level_run(st0, asg, cs.take(i as int), now).0, asg, cs[i as int], now).1;
            let ghost r_before = result;
            match res {
                Ok(resolution) => {
                    proof {
                        assert(outs0.push(o).take(i as int) =~= outs0);
                        assert(all.take(i as int + 1) == outs0.push(o));
                        assert(-i64::MAX <= ok_delay_sum(all.take(i as int + 1)) <= i64::MAX);
                        assert(outs0.push(o).drop_last() =~= outs0);
                    }
                    resolved_count = resolved_count + 1;
                    total_delay = total_delay + resolution.delay;
                    result.resolutions.push(resolution);
                    proof {
                        assert(result.resolutions@.map_values(|x: ConflictResolution| (x.resource_id@, resolution_view(x)))
                            =~= r_before.resolutions@.map_values(|x: ConflictResolution| (x.resource_id@, resolution_view(x))).push(
                            (cs[i as int].resource_id@, o->Ok_0)));
                    }
                },
                Err(e) => {
                    proof {
                        assert(outs0.push(o).drop_last() =~= outs0);
                    }
                    let failure = FailedResolution { conflict, error: e.to_text() };
                    result.failed_resolutions.push(failure);
                    proof {
                        assert(result.failed_resolutions@.map_values(|x: FailedResolution| (conflict_view(x.conflict), x.error@))
                            =~= r_before.failed_resolutions@.map_values(|x: FailedResolution| (conflict_view(x.conflict), x.error@)).push(
                            (conflict_view(cs[i as int]), o->Err_0)));
                    }
                },
            }
            i = i + 1;
        }
        proof {
            assert(cs.take(cs.len() as int) =~= cs);
            assert(all.take(all.len() as int) =~= all);
        }
        result.conflicts_resolved = resolved_count;
        result.total_delay = total_delay;
        result.success = result.failed_resolutions.len() == 0;
        Ok(result)
    }

    /// Resolves the conflicts of the schedule in order now, each by its severity; a
    /// conflict with no task to reschedule is recorded as a failure.
    pub fn level_resources(&mut self) -> (r: Result<ResourceLevelingResult, DomainError>)
        requires
            forall|now: i64| -9_000_000_000_000_000 <= now <= 9_000_000_000_000_000 ==> #[trigger] can_level(*old(self), now),
        ensures
            exists|now: i64| #[trigger] leveled_at(*old(self), *final(self), now, r),
    {
        let now = now_millis();
        self.level_resources_at(now)
    }
}

/// The outcome gathered so far: the resolutions and failures of the outcomes, and the
/// running count and delay.
pub open spec fn leveled_so_far(r: ResourceLevelingResult, count: usize, delay: i64, cs: Seq<ResourceConflict>, outs: Seq<Result<ResolutionView, Seq<char>>>) -> bool {
    &&& r.resolutions@.map_values(|x: ConflictResolution| (x.resource_id@, resolution_view(x))) == ok_views(cs, outs)
    &&& forall|i: int| 0 <= i < r.resolutions@.len() ==> (#[trigger] r.resolutions@[i]).subtasks is None
    &&& r.failed_resolutions@.map_values(|x: FailedResolution| (conflict_view(x.conflict), x.error@)) == failed_views(cs, outs)
    &&& count == ok_count(outs)
    &&& delay == ok_delay_sum(outs)
    &&& count <= outs.len()
}

/// The outcomes of resolving the first conflicts are the first outcomes of resolving
/// them all.
pub proof fn lemma_level_run_prefix(st: LevelState, assignments: Seq<(String, Vec<String>)>, cs: Seq<ResourceConflict>, now: i64, i: int)
    requires
        0 <= i <= cs.len(),
    ensures
        level_run(st, assignments, cs.take(i), now).1 == level_run(st, assignments, cs, now).1.take(i),
        level_run(st, assignments, cs, now).1.len() == cs.len(),
    decreases cs.len(),
{
    lemma_level_run_len(st, assignments, cs, now);
    if i == cs.len() {
        assert(cs.take(i) =~= cs);
        assert(level_run(st, assignments, cs, now).1.take(i) =~= level_run(st, assignments, cs, now).1);
    } else {
        lemma_level_run_prefix(st, assignments, cs.drop_last(), now, i);
        assert(cs.drop_last().take(i) =~= cs.take(i));
        let outs = level_run(st, assignments, cs.drop_last(), now).1;
        lemma_level_run_len(st, assignments, cs.drop_last(), now);
        assert(outs.push(resolve(level_run(st, assignments, cs.drop_last(), now).0, assignments, cs.last(), now).1).take(i) =~= outs.take(i));
    }
}

/// There is one outcome per conflict.
pub proof fn lemma_level_run_len(st: LevelState, assignments: Seq<(String, Vec<String>)>, cs: Seq<ResourceConflict>, now: i64)
    ensures
        level_run(st, assignments, cs, now).1.len() == cs.len(),
    decreases cs.len(),
{
    if cs.len() > 0 {
        lemma_level_run_len(st, assignments, cs.drop_last(), now);
    }
}

/// Resolving a copy of a conflict does what resolving the conflict does.
pub proof fn lemma_resolve_view(st: LevelState, assignments: Seq<(String, Vec<String>)>, c: ResourceConflict, d: ResourceConflict, now: i64)
    requires
        conflict_view(c) == conflict_view(d),
    ensures
        resolve(st, assignments, c, now) == resolve(st, assignments, d, now),
        resolve_fits(st, assignments, c, now) == resolve_fits(st, assignments, d, now),
{
    assert(string_views(c.conflicting_tasks@) == string_views(d.conflicting_tasks@));
    assert(c.conflicting_tasks@.len() == d.conflicting_tasks@.len());
    if c.conflicting_tasks@.len() > 0 {
        assert(string_views(c.conflicting_tasks@)[0] == c.conflicting_tasks@[0]@);
        assert(string_views(d.conflicting_tasks@)[0] == d.conflicting_tasks@[0]@);
    }
}

} // verus!
