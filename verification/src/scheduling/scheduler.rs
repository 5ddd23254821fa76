//! Scheduled tasks, project schedules and the conflicts between them. Instants are
//! milliseconds since the Unix epoch and spans are milliseconds.

use vstd::prelude::*;
use crate::errors::DomainError;
use crate::project_management::advanced_dependencies::{count_false, lemma_count_false_mark, now_millis};
use crate::project_management::calculation_cache_system::{string_views, strings_contain};
use crate::text::str_eq;

verus! {

/// How serious a scheduling conflict is.
#[derive(Debug, Clone, Copy, PartialEq, Eq, Structural)]
pub enum ConflictSeverity {
    Low,
    Medium,
    High,
    Critical,
}

/// The name of a value of `ConflictSeverity`.
pub open spec fn severity_text(v: ConflictSeverity) -> Seq<char> {
    match v {
        ConflictSeverity::Low => "Low"@,
        ConflictSeverity::Medium => "Medium"@,
        ConflictSeverity::High => "High"@,
        ConflictSeverity::Critical => "Critical"@,
    }
}

impl ConflictSeverity {
    /// The readable name.
    pub fn to_string(&self) -> (s: String)
        ensures
            s@ == severity_text(*self),
    {
        let t = match self {
            ConflictSeverity::Low => "Low",
            ConflictSeverity::Medium => "Medium",
            ConflictSeverity::High => "High",
            ConflictSeverity::Critical => "Critical",
        };
        String::from_str(t)
    }
}


/// An instant or a span in milliseconds that lies far inside what `i64` holds: every
/// instant that a calendar date can have, and the differences of two of them, do.
pub open spec fn schedule_time(ms: int) -> bool {
    -0x2000_0000_0000_0000 <= ms <= 0x2000_0000_0000_0000
}

/// A span of time, from `start` to `end`.
#[derive(Debug, Clone, Copy, PartialEq, Eq)]
pub struct TimeRange {
    pub start: i64,
    pub end: i64,
}

/// Tasks that compete for one resource over a span of time.
#[derive(Debug, PartialEq, Eq)]
pub struct ResourceConflict {
    pub resource_id: String,
    pub conflicting_tasks: Vec<String>,
    pub conflict_period: TimeRange,
    pub severity: ConflictSeverity,
    pub suggested_resolution: Option<String>,
}

impl Clone for ResourceConflict {
    fn clone(&self) -> (r: Self)
        ensures
            conflict_view(r) == conflict_view(*self),
    {
        let mut tasks: Vec<String> = Vec::new();
        let mut i: usize = 0;
        while i < self.conflicting_tasks.len()
            invariant
                0 <= i <= self.conflicting_tasks@.len(),
                string_views(tasks@) == string_views(self.conflicting_tasks@.take(i as int)),
            decreases self.conflicting_tasks.len() - i,
        {
            let ghost before = string_views(tasks@);
            tasks.push(self.conflicting_tasks[i].clone());
            proof {
                assert(string_views(tasks@) =~= before.push(self.conflicting_tasks@[i as int]@));
                assert(string_views(self.conflicting_tasks@.take(i as int + 1)) =~= string_views(
                    self.conflicting_tasks@.take(i as int),
                ).push(self.conflicting_tasks@[i as int]@));
            }
            i = i + 1;
        }
        proof {
            assert(self.conflicting_tasks@.take(self.conflicting_tasks@.len() as int) =~= self.conflicting_tasks@);
        }
        let suggested_resolution = match &self.suggested_resolution {
            Some(x) => Some(x.clone()),
            None => None,
        };
        ResourceConflict {
            resource_id: self.resource_id.clone(),
            conflicting_tasks: tasks,
            conflict_period: self.conflict_period,
            severity: self.severity,
            suggested_resolution,
        }
    }
}

/// A task with its early and late dates, its slacks and its duration.
#[derive(Debug, Clone, PartialEq, Eq)]
pub struct ScheduledTask {
    pub task_id: String,
    pub early_start: i64,
    pub early_finish: i64,
    pub late_start: i64,
    pub late_finish: i64,
    pub total_slack: i64,
    pub free_slack: i64,
    pub is_critical: bool,
    pub duration: i64,
}

/// The earliest early start among tasks; zero among none.
pub open spec fn earliest_start(s: Seq<ScheduledTask>) -> int
    decreases s.len(),
{
    if s.len() == 0 {
        0
    } else if s.len() == 1 {
        s[0].early_start as int
    } else {
        let m = earliest_start(s.drop_last());
        if (s.last().early_start as int) < m { s.last().early_start as int } else { m }
    }
}

/// The free slack of a task before its successors: the time from its early finish to
/// the earliest early start among them, never below zero; its total slack where it has
/// none.
pub open spec fn free_slack_of(t: ScheduledTask, successors: Seq<ScheduledTask>) -> int {
    if successors.len() == 0 {
        t.total_slack as int
    } else {
        let d = earliest_start(successors) - t.early_finish;
        if d < 0 { 0 } else { d }
    }
}

/// Law: the earliest early start among tasks is the least of their early starts: no
/// task starts earlier, and some task starts then.
pub proof fn lemma_earliest_start_is_least(s: Seq<ScheduledTask>)
    requires
        s.len() > 0,
    ensures
        forall|k: int| 0 <= k < s.len() ==> earliest_start(s) <= (#[trigger] s[k]).early_start,
        exists|k: int| 0 <= k < s.len() && earliest_start(s) == (#[trigger] s[k]).early_start,
    decreases s.len(),
{
    if s.len() > 1 {
        let p = s.drop_last();
        lemma_earliest_start_is_least(p);
        assert forall|k: int| 0 <= k < s.len() implies earliest_start(s) <= (#[trigger] s[k]).early_start by {
            if k < s.len() - 1 {
                assert(p[k] == s[k]);
            }
        }
        let k0 = choose|k: int| 0 <= k < p.len() && earliest_start(p) == (#[trigger] p[k]).early_start;
        assert(p[k0] == s[k0]);
        if (s.last().early_start as int) < earliest_start(p) {
            assert(s[s.len() - 1] == s.last());
        }
    } else {
        assert(earliest_start(s) == s[0].early_start);
    }
}

/// Law: the free slack of a task with successors is the gap from its early finish to
/// the earliest early start among all of them, and never negative: it is at most the
/// gap to each successor (or zero), and it equals the gap to some successor (or zero).
pub proof fn lemma_free_slack_is_least_gap(t: ScheduledTask, successors: Seq<ScheduledTask>)
    requires
        successors.len() > 0,
    ensures
        free_slack_of(t, successors) >= 0,
        forall|k: int| 0 <= k < successors.len() ==> free_slack_of(t, successors) == 0
            || free_slack_of(t, successors) <= (#[trigger] successors[k]).early_start - t.early_finish,
        free_slack_of(t, successors) == 0 || exists|k: int| 0 <= k < successors.len()
            && free_slack_of(t, successors) == (#[trigger] successors[k]).early_start - t.early_finish,
        (forall|k: int| 0 <= k < successors.len() ==> (#[trigger] successors[k]).early_start >= t.early_finish)
            ==> exists|k: int| 0 <= k < successors.len()
                && free_slack_of(t, successors) == (#[trigger] successors[k]).early_start - t.early_finish,
{
    lemma_earliest_start_is_least(successors);
}

impl ScheduledTask {
    /// A task with its early and late starts and its duration; its finishes and its
    /// total slack follow, it is critical when it has no slack, and its free slack is
    /// zero until it is calculated.
    pub fn new(task_id: String, early_start: i64, late_start: i64, duration: i64) -> (t: ScheduledTask)
        requires
            i64::MIN <= early_start + duration <= i64::MAX,
            i64::MIN <= late_start + duration <= i64::MAX,
            i64::MIN <= late_start - early_start <= i64::MAX,
        ensures
            t.task_id == task_id,
            t.early_start == early_start,
            t.early_finish == early_start + duration,
            t.late_start == late_start,
            t.late_finish == late_start + duration,
            t.total_slack == late_start - early_start,
            t.free_slack == 0,
            t.is_critical == (late_start == early_start),
            t.duration == duration,
    {
        let total_slack = late_start - early_start;
        ScheduledTask {
            task_id,
            early_start,
            early_finish: early_start + duration,
            late_start,
            late_finish: late_start + duration,
            total_slack,
            free_slack: 0,
            is_critical: total_slack == 0,
            duration,
        }
    }

    /// Sets the free slack from the successors of the task.
    pub fn calculate_free_slack(&mut self, successors: &[&ScheduledTask])
        requires
            free_slack_of(*old(self), successors@.map_values(|t: &ScheduledTask| *t)) <= i64::MAX,
        ensures
            *final(self) == (ScheduledTask {
                free_slack: free_slack_of(*old(self), successors@.map_values(|t: &ScheduledTask| *t)) as i64,
                ..*old(self)
            }),
    {
        self.free_slack = self.free_slack_before(successors);
    }

    /// The free slack of the task before its successors.
    fn free_slack_before(&self, successors: &[&ScheduledTask]) -> (f: i64)
        requires
            free_slack_of(*self, successors@.map_values(|t: &ScheduledTask| *t)) <= i64::MAX,
        ensures
            f == free_slack_of(*self, successors@.map_values(|t: &ScheduledTask| *t)),
    {
        if successors.len() == 0 {
            return self.total_slack;
        }
        let ghost vals = successors@.map_values(|t: &ScheduledTask| *t);
        let mut earliest: i64 = successors[0].early_start;
        let mut i: usize = 1;
        while i < successors.len()
            invariant
                1 <= i <= successors@.len(),
                vals == successors@.map_values(|t: &ScheduledTask| *t),
                earliest == earliest_start(vals.take(i as int)),
            decreases successors.len() - i,
        {
            proof {
                assert(vals.take(i as int + 1).drop_last() =~= vals.take(i as int));
            }
            if successors[i].early_start < earliest {
                earliest = successors[i].early_start;
            }
            i = i + 1;
        }
        proof {
            assert(vals.take(vals.len() as int) =~= vals);
        }
        let d: i128 = (earliest as i128) - (self.early_finish as i128);
        if d < 0 { 0 } else { d as i64 }
    }
}

/// The position of the first task, from position `i` on, with the identifier.
pub open spec fn find_scheduled_from(tasks: Seq<ScheduledTask>, id: Seq<char>, i: int) -> Option<int>
    decreases tasks.len() - i,
{
    if i < 0 || i >= tasks.len() {
        None
    } else if tasks[i].task_id@ == id {
        Some(i)
    } else {
        find_scheduled_from(tasks, id, i + 1)
    }
}

/// The position of the first task with the identifier.
pub open spec fn find_scheduled(tasks: Seq<ScheduledTask>, id: Seq<char>) -> Option<int> {
    find_scheduled_from(tasks, id, 0)
}

/// The first position from `i` on holds the identifier, where one does.
pub proof fn lemma_find_scheduled_from(tasks: Seq<ScheduledTask>, id: Seq<char>, i: int)
    requires
        0 <= i <= tasks.len(),
    ensures
        find_scheduled_from(tasks, id, i) matches Some(j) ==> i <= j < tasks.len() && tasks[j].task_id@ == id,
        find_scheduled_from(tasks, id, i) is None ==> forall|j: int| i <= j < tasks.len() ==> (#[trigger] tasks[j]).task_id@ != id,
    decreases tasks.len() - i,
{
    if i < tasks.len() {
        lemma_find_scheduled_from(tasks, id, i + 1);
    }
}

/// The tasks with the identifiers, in the order of the identifiers; an identifier of
/// no task is passed over.
pub open spec fn tasks_of(tasks: Seq<ScheduledTask>, ids: Seq<String>) -> Seq<ScheduledTask>
    decreases ids.len(),
{
    if ids.len() == 0 {
        Seq::empty()
    } else {
        let r = tasks_of(tasks, ids.drop_last());
        match find_scheduled(tasks, ids.last()@) {
            Some(j) => r.push(tasks[j]),
            None => r,
        }
    }
}

/// The position of the first list of task identifiers filed under the resource.
pub open spec fn find_resource_from(a: Seq<(String, Vec<String>)>, id: Seq<char>, i: int) -> Option<int>
    decreases a.len() - i,
{
    if i < 0 || i >= a.len() {
        None
    } else if a[i].0@ == id {
        Some(i)
    } else {
        find_resource_from(a, id, i + 1)
    }
}

/// Whether a list of references holds, in order, the given tasks.
pub open spec fn refers_to(r: Seq<&ScheduledTask>, tasks: Seq<ScheduledTask>) -> bool {
    &&& r.len() == tasks.len()
    &&& forall|i: int| 0 <= i < r.len() ==> *r[i] == tasks[i]
}

/// A schedule of a project: its tasks, its critical path, its duration, its first and
/// last instants, the task identifiers assigned to each resource, and the conflicts.
#[derive(Debug, Clone, PartialEq, Eq)]
pub struct ProjectSchedule {
    pub project_id: String,
    pub tasks: Vec<ScheduledTask>,
    pub critical_path: Vec<String>,
    pub total_duration: i64,
    pub start_date: i64,
    pub end_date: i64,
    pub resource_assignments: Vec<(String, Vec<String>)>,
    pub conflicts: Vec<ResourceConflict>,
}

pub(crate) fn find_task_position(tasks: &Vec<ScheduledTask>, id: &str) -> (r: Option<usize>)
    ensures
        match find_scheduled(tasks@, id@) {
            Some(i) => r matches Some(j) && j == i,
            None => r is None,
        },
        r matches Some(j) ==> j < tasks@.len(),
{
    proof {
        lemma_find_scheduled_from(tasks@, id@, 0);
    }
    let mut i: usize = 0;
    while i < tasks.len()
        invariant
            0 <= i <= tasks@.len(),
            find_scheduled(tasks@, id@) == find_scheduled_from(tasks@, id@, i as int),
        decreases tasks.len() - i,
    {
        if str_eq(tasks[i].task_id.as_str(), id) {
            return Some(i);
        }
        i = i + 1;
    }
    None
}

impl ProjectSchedule {
    /// An empty schedule of the project, starting and ending at `start_date`.
    pub fn new(project_id: String, start_date: i64) -> (s: ProjectSchedule)
        ensures
            s.project_id == project_id,
            s.tasks@.len() == 0,
            s.critical_path@.len() == 0,
            s.total_duration == 0,
            s.start_date == start_date,
            s.end_date == start_date,
            s.resource_assignments@.len() == 0,
            s.conflicts@.len() == 0,
    {
        ProjectSchedule {
            project_id,
            tasks: Vec::new(),
            critical_path: Vec::new(),
            total_duration: 0,
            start_date,
            end_date: start_date,
            resource_assignments: Vec::new(),
            conflicts: Vec::new(),
        }
    }

    /// The first task with the identifier.
    pub fn get_task(&self, task_id: &str) -> (r: Option<&ScheduledTask>)
        ensures
            match find_scheduled(self.tasks@, task_id@) {
                Some(i) => r matches Some(t) && *t == self.tasks@[i],
                None => r is None,
            },
    {
        match find_task_position(&self.tasks, task_id) {
            Some(i) => Some(&self.tasks[i]),
            None => None,
        }
    }

    /// The critical tasks, in order.
    pub fn get_critical_tasks(&self) -> (r: Vec<&ScheduledTask>)
        ensures
            refers_to(r@, self.tasks@.filter(|t: ScheduledTask| t.is_critical)),
    {
        let mut r: Vec<&ScheduledTask> = Vec::new();
        let mut i: usize = 0;
        while i < self.tasks.len()
            invariant
                0 <= i <= self.tasks@.len(),
                refers_to(r@, self.tasks@.take(i as int).filter(|t: ScheduledTask| t.is_critical)),
            decreases self.tasks.len() - i,
        {
            proof {
                let before = self.tasks@.take(i as int);
                assert(self.tasks@.take(i as int + 1) =~= before.push(self.tasks@[i as int]));
                reveal(Seq::filter);
                assert(before.push(self.tasks@[i as int]).drop_last() =~= before);
            }
            if self.tasks[i].is_critical {
                r.push(&self.tasks[i]);
            }
            i = i + 1;
        }
        proof {
            assert(self.tasks@.take(self.tasks@.len() as int) =~= self.tasks@);
        }
        r
    }

    /// The tasks assigned to the resource, in the order of assignment; none where the
    /// resource has no assignments.
    pub fn get_tasks_by_resource(&self, resource_id: &str) -> (r: Vec<&ScheduledTask>)
        ensures
            match find_resource_from(self.resource_assignments@, resource_id@, 0) {
                Some(k) => refers_to(r@, tasks_of(self.tasks@, self.resource_assignments@[k].1@)),
                None => r@.len() == 0,
            },
    {
        let mut k: usize = 0;
        while k < self.resource_assignments.len()
            invariant
                0 <= k <= self.resource_assignments@.len(),
                find_resource_from(self.resource_assignments@, resource_id@, 0)
                    == find_resource_from(self.resource_assignments@, resource_id@, k as int),
            decreases self.resource_assignments.len() - k,
        {
            if str_eq(self.resource_assignments[k].0.as_str(), resource_id) {
                let ids = &self.resource_assignments[k].1;
                let mut r: Vec<&ScheduledTask> = Vec::new();
                let mut i: usize = 0;
                while i < ids.len()
                    invariant
                        0 <= i <= ids@.len(),
                        refers_to(r@, tasks_of(self.tasks@, ids@.take(i as int))),
                    decreases ids.len() - i,
                {
                    proof {
                        assert(ids@.take(i as int + 1).drop_last() =~= ids@.take(i as int));
                    }
                    match self.get_task(ids[i].as_str()) {
                        Some(t) => r.push(t),
                        None => {},
                    }
                    i = i + 1;
                }
                proof {
                    assert(ids@.take(ids@.len() as int) =~= ids@);
                }
                return r;
            }
            k = k + 1;
        }
        Vec::new()
    }
}

// ============================================================================
// THE SCHEDULER
// ============================================================================

/// A day in milliseconds, the duration the scheduler gives every task.
pub const DAY_MILLIS: i64 = 86_400_000i64;

/// A dependency between two tasks, by their identifiers: the successor waits for the
/// predecessor.
#[derive(Debug, Clone, PartialEq, Eq)]
pub struct TaskDependency {
    pub predecessor: String,
    pub successor: String,
}

/// The dependencies as pairs of identifiers.
pub open spec fn dep_views(d: Seq<TaskDependency>) -> Seq<(Seq<char>, Seq<char>)> {
    d.map_values(|x: TaskDependency| (x.predecessor@, x.successor@))
}

/// The identifiers, each once, at its first place.
pub open spec fn distinct(ids: Seq<Seq<char>>) -> Seq<Seq<char>>
    decreases ids.len(),
{
    if ids.len() == 0 {
        Seq::empty()
    } else {
        let r = distinct(ids.drop_last());
        if r.contains(ids.last()) { r } else { r.push(ids.last()) }
    }
}

/// The position of the identifier among distinct identifiers, from position `i` on.
pub open spec fn position_from(u: Seq<Seq<char>>, id: Seq<char>, i: int) -> Option<int>
    decreases u.len() - i,
{
    if i < 0 || i >= u.len() {
        None
    } else if u[i] == id {
        Some(i)
    } else {
        position_from(u, id, i + 1)
    }
}

/// The position of the identifier among distinct identifiers.
pub open spec fn position_of(u: Seq<Seq<char>>, id: Seq<char>) -> Option<int> {
    position_from(u, id, 0)
}

/// The predecessors of a task, in the order of the dependencies.
pub open spec fn preds_of(deps: Seq<(Seq<char>, Seq<char>)>, id: Seq<char>) -> Seq<Seq<char>>
    decreases deps.len(),
{
    if deps.len() == 0 {
        Seq::empty()
    } else {
        let r = preds_of(deps.drop_last(), id);
        if deps.last().1 == id { r.push(deps.last().0) } else { r }
    }
}

/// The successors of a task, in the order of the dependencies.
pub open spec fn succs_of(deps: Seq<(Seq<char>, Seq<char>)>, id: Seq<char>) -> Seq<Seq<char>>
    decreases deps.len(),
{
    if deps.len() == 0 {
        Seq::empty()
    } else {
        let r = succs_of(deps.drop_last(), id);
        if deps.last().0 == id { r.push(deps.last().1) } else { r }
    }
}

/// Whether some dependency has the task as its successor.
pub open spec fn waits(deps: Seq<(Seq<char>, Seq<char>)>, id: Seq<char>) -> bool {
    exists|k: int| 0 <= k < deps.len() && (#[trigger] deps[k]).1 == id
}

/// Whether some dependency has the task as its predecessor.
pub open spec fn is_awaited(deps: Seq<(Seq<char>, Seq<char>)>, id: Seq<char>) -> bool {
    exists|k: int| 0 <= k < deps.len() && (#[trigger] deps[k]).0 == id
}

/// The tasks that wait for none, in order.
pub open spec fn roots_of(u: Seq<Seq<char>>, deps: Seq<(Seq<char>, Seq<char>)>) -> Seq<Seq<char>>
    decreases u.len(),
{
    if u.len() == 0 {
        Seq::empty()
    } else {
        let r = roots_of(u.drop_last(), deps);
        if waits(deps, u.last()) { r } else { r.push(u.last()) }
    }
}

/// The tasks that none waits for, in order.
pub open spec fn leaves_of(u: Seq<Seq<char>>, deps: Seq<(Seq<char>, Seq<char>)>) -> Seq<Seq<char>>
    decreases u.len(),
{
    if u.len() == 0 {
        Seq::empty()
    } else {
        let r = leaves_of(u.drop_last(), deps);
        if is_awaited(deps, u.last()) { r } else { r.push(u.last()) }
    }
}

/// The latest of the recorded finishes of those of the given tasks that are known.
pub open spec fn latest_finish(u: Seq<Seq<char>>, finish: Seq<i64>, ps: Seq<Seq<char>>) -> Option<int>
    decreases ps.len(),
{
    if ps.len() == 0 {
        None
    } else {
        let r = latest_finish(u, finish, ps.drop_last());
        match position_of(u, ps.last()) {
            Some(k) => {
                let f = finish[k] as int;
                match r {
                    Some(m) => Some(if f > m { f } else { m }),
                    None => Some(f),
                }
            },
            None => r,
        }
    }
}

/// The early start of a task: the latest recorded finish of its known predecessors;
/// the project start where it has none.
pub open spec fn early_start_for(
    u: Seq<Seq<char>>,
    finish: Seq<i64>,
    deps: Seq<(Seq<char>, Seq<char>)>,
    id: Seq<char>,
    start: i64,
) -> int {
    match latest_finish(u, finish, preds_of(deps, id)) {
        Some(m) => m,
        None => start as int,
    }
}

/// The schedule with the early dates of the first task with the identifier set.
pub open spec fn set_early(sched: Seq<ScheduledTask>, id: Seq<char>, es: i64, ef: i64) -> Seq<ScheduledTask> {
    match find_scheduled(sched, id) {
        Some(i) => sched.update(i, ScheduledTask { early_start: es, early_finish: ef, ..sched[i] }),
        None => sched,
    }
}

/// The forward pass from a state: the stack of tasks still to visit, which tasks were
/// visited, their recorded finishes and the schedule. It takes the last task of the
/// stack; a visited one is passed over; an unknown one stops the pass with its
/// identifier; another starts when its latest known predecessor finishes (or at the
/// start), lasts a day, and puts its successors on the stack.
pub open spec fn forward(
    u: Seq<Seq<char>>,
    deps: Seq<(Seq<char>, Seq<char>)>,
    start: i64,
    queue: Seq<Seq<char>>,
    done: Seq<bool>,
    finish: Seq<i64>,
    sched: Seq<ScheduledTask>,
) -> Result<Seq<ScheduledTask>, Seq<char>>
    decreases count_false(done), queue.len(),
{
    if queue.len() == 0 {
        Ok(sched)
    } else {
        let id = queue.last();
        let rest = queue.drop_last();
        match position_of(u, id) {
            None => Err(id),
            Some(k) => {
                if k < 0 || k >= done.len() {
                    Ok(sched)
                } else if done[k] {
                    forward(u, deps, start, rest, done, finish, sched)
                } else {
                    let es = early_start_for(u, finish, deps, id, start);
                    let ef = es + DAY_MILLIS;
                    proof {
                        lemma_count_false_mark(done, k);
                    }
                    forward(
                        u,
                        deps,
                        start,
                        rest + succs_of(deps, id),
                        done.update(k, true),
                        finish.update(k, ef as i64),
                        set_early(sched, id, es as i64, ef as i64),
                    )
                }
            },
        }
    }
}

/// The schedule before the passes: every task starts at `start`, early and late, and
/// lasts a day.
pub open spec fn initial_schedule(ids: Seq<String>, start: i64) -> Seq<ScheduledTask> {
    ids.map_values(|id: String| ScheduledTask {
        task_id: id,
        early_start: start,
        early_finish: (start + DAY_MILLIS) as i64,
        late_start: start,
        late_finish: (start + DAY_MILLIS) as i64,
        total_slack: 0,
        free_slack: 0,
        is_critical: true,
        duration: DAY_MILLIS,
    })
}

/// The first position from `i` on holds the identifier, where one does.
pub proof fn lemma_position_from(u: Seq<Seq<char>>, id: Seq<char>, i: int)
    requires
        0 <= i <= u.len(),
    ensures
        position_from(u, id, i) matches Some(j) ==> i <= j < u.len() && u[j] == id,
        position_from(u, id, i) is None ==> forall|j: int| i <= j < u.len() ==> u[j] != id,
    decreases u.len() - i,
{
    if i < u.len() {
        lemma_position_from(u, id, i + 1);
    }
}

/// There are no more unmarked entries than entries.
pub proof fn lemma_count_false_bound(s: Seq<bool>)
    ensures
        count_false(s) <= s.len(),
    decreases s.len(),
{
    if s.len() > 0 {
        lemma_count_false_bound(s.drop_last());
    }
}

/// The identifiers, each once, are no more than the identifiers.
pub proof fn lemma_distinct_len(ids: Seq<Seq<char>>)
    ensures
        distinct(ids).len() <= ids.len(),
    decreases ids.len(),
{
    if ids.len() > 0 {
        lemma_distinct_len(ids.drop_last());
    }
}

/// The latest recorded finish lies among the recorded finishes.
pub proof fn lemma_latest_finish_bounds(u: Seq<Seq<char>>, finish: Seq<i64>, ps: Seq<Seq<char>>, lo: int, hi: int)
    requires
        finish.len() == u.len(),
        forall|k: int| 0 <= k < finish.len() ==> lo <= #[trigger] finish[k] <= hi,
    ensures
        latest_finish(u, finish, ps) matches Some(m) ==> lo <= m <= hi,
    decreases ps.len(),
{
    if ps.len() > 0 {
        lemma_latest_finish_bounds(u, finish, ps.drop_last(), lo, hi);
        lemma_position_from(u, ps.last(), 0);
    }
}

fn distinct_ids(ids: &Vec<String>) -> (u: Vec<String>)
    ensures
        string_views(u@) == distinct(string_views(ids@)),
{
    let ghost all = string_views(ids@);
    let mut u: Vec<String> = Vec::new();
    let mut i: usize = 0;
    while i < ids.len()
        invariant
            0 <= i <= ids@.len(),
            all == string_views(ids@),
            string_views(u@) == distinct(all.take(i as int)),
        decreases ids.len() - i,
    {
        proof {
            assert(all.take(i as int + 1).drop_last() =~= all.take(i as int));
            assert(all.take(i as int + 1).last() == ids@[i as int]@);
        }
        if !strings_contain(&u, ids[i].as_str()) {
            let ghost before = string_views(u@);
            u.push(ids[i].clone());
            assert(string_views(u@) =~= before.push(ids@[i as int]@));
        }
        i = i + 1;
    }
    proof {
        assert(all.take(all.len() as int) =~= all);
    }
    u
}

fn position(u: &Vec<String>, id: &str) -> (r: Option<usize>)
    ensures
        match position_of(string_views(u@), id@) {
            Some(k) => r matches Some(j) && j == k,
            None => r is None,
        },
        r matches Some(j) ==> j < u@.len(),
{
    let ghost uv = string_views(u@);
    proof {
        lemma_position_from(uv, id@, 0);
    }
    let mut i: usize = 0;
    while i < u.len()
        invariant
            0 <= i <= u@.len(),
            uv == string_views(u@),
            position_of(uv, id@) == position_from(uv, id@, i as int),
        decreases u.len() - i,
    {
        if str_eq(u[i].as_str(), id) {
            assert(uv[i as int] == id@);
            return Some(i);
        }
        i = i + 1;
    }
    None
}

fn predecessors_of(deps: &Vec<TaskDependency>, id: &str) -> (r: Vec<String>)
    ensures
        string_views(r@) == preds_of(dep_views(deps@), id@),
{
    let ghost dv = dep_views(deps@);
    let mut r: Vec<String> = Vec::new();
    let mut i: usize = 0;
    while i < deps.len()
        invariant
            0 <= i <= deps@.len(),
            dv == dep_views(deps@),
            string_views(r@) == preds_of(dv.take(i as int), id@),
        decreases deps.len() - i,
    {
        proof {
            assert(dv.take(i as int + 1).drop_last() =~= dv.take(i as int));
            assert(dv.take(i as int + 1).last() == dv[i as int]);
        }
        if str_eq(deps[i].successor.as_str(), id) {
            let ghost before = string_views(r@);
            r.push(deps[i].predecessor.clone());
            assert(string_views(r@) =~= before.push(dv[i as int].0));
        }
        i = i + 1;
    }
    proof {
        assert(dv.take(dv.len() as int) =~= dv);
    }
    r
}

fn successors_of(deps: &Vec<TaskDependency>, id: &str) -> (r: Vec<String>)
    ensures
        string_views(r@) == succs_of(dep_views(deps@), id@),
{
    let ghost dv = dep_views(deps@);
    let mut r: Vec<String> = Vec::new();
    let mut i: usize = 0;
    while i < deps.len()
        invariant
            0 <= i <= deps@.len(),
            dv == dep_views(deps@),
            string_views(r@) == succs_of(dv.take(i as int), id@),
        decreases deps.len() - i,
    {
        proof {
            assert(dv.take(i as int + 1).drop_last() =~= dv.take(i as int));
            assert(dv.take(i as int + 1).last() == dv[i as int]);
        }
        if str_eq(deps[i].predecessor.as_str(), id) {
            let ghost before = string_views(r@);
            r.push(deps[i].successor.clone());
            assert(string_views(r@) =~= before.push(dv[i as int].1));
        }
        i = i + 1;
    }
    proof {
        assert(dv.take(dv.len() as int) =~= dv);
    }
    r
}

fn waits_for_any(deps: &Vec<TaskDependency>, id: &str) -> (b: bool)
    ensures
        b == waits(dep_views(deps@), id@),
{
    let ghost dv = dep_views(deps@);
    let mut i: usize = 0;
    while i < deps.len()
        invariant
            0 <= i <= deps@.len(),
            dv == dep_views(deps@),
            forall|k: int| 0 <= k < i ==> (#[trigger] dv[k]).1 != id@,
        decreases deps.len() - i,
    {
        if str_eq(deps[i].successor.as_str(), id) {
            assert(dv[i as int].1 == id@);
            return true;
        }
        i = i + 1;
    }
    false
}

fn awaited_by_any(deps: &Vec<TaskDependency>, id: &str) -> (b: bool)
    ensures
        b == is_awaited(dep_views(deps@), id@),
{
    let ghost dv = dep_views(deps@);
    let mut i: usize = 0;
    while i < deps.len()
        invariant
            0 <= i <= deps@.len(),
            dv == dep_views(deps@),
            forall|k: int| 0 <= k < i ==> (#[trigger] dv[k]).0 != id@,
        decreases deps.len() - i,
    {
        if str_eq(deps[i].predecessor.as_str(), id) {
            assert(dv[i as int].0 == id@);
            return true;
        }
        i = i + 1;
    }
    false
}

fn root_ids(u: &Vec<String>, deps: &Vec<TaskDependency>) -> (r: Vec<String>)
    ensures
        string_views(r@) == roots_of(string_views(u@), dep_views(deps@)),
{
    let ghost uv = string_views(u@);
    let mut r: Vec<String> = Vec::new();
    let mut i: usize = 0;
    while i < u.len()
        invariant
            0 <= i <= u@.len(),
            uv == string_views(u@),
            string_views(r@) == roots_of(uv.take(i as int), dep_views(deps@)),
        decreases u.len() - i,
    {
        proof {
            assert(uv.take(i as int + 1).drop_last() =~= uv.take(i as int));
            assert(uv.take(i as int + 1).last() == u@[i as int]@);
        }
        if !waits_for_any(deps, u[i].as_str()) {
            let ghost before = string_views(r@);
            r.push(u[i].clone());
            assert(string_views(r@) =~= before.push(u@[i as int]@));
        }
        i = i + 1;
    }
    proof {
        assert(uv.take(uv.len() as int) =~= uv);
    }
    r
}

fn leaf_ids(u: &Vec<String>, deps: &Vec<TaskDependency>) -> (r: Vec<String>)
    ensures
        string_views(r@) == leaves_of(string_views(u@), dep_views(deps@)),
{
    let ghost uv = string_views(u@);
    let mut r: Vec<String> = Vec::new();
    let mut i: usize = 0;
    while i < u.len()
        invariant
            0 <= i <= u@.len(),
            uv == string_views(u@),
            string_views(r@) == leaves_of(uv.take(i as int), dep_views(deps@)),
        decreases u.len() - i,
    {
        proof {
            assert(uv.take(i as int + 1).drop_last() =~= uv.take(i as int));
            assert(uv.take(i as int + 1).last() == u@[i as int]@);
        }
        if !awaited_by_any(deps, u[i].as_str()) {
            let ghost before = string_views(r@);
            r.push(u[i].clone());
            assert(string_views(r@) =~= before.push(u@[i as int]@));
        }
        i = i + 1;
    }
    proof {
        assert(uv.take(uv.len() as int) =~= uv);
    }
    r
}

fn early_start(u: &Vec<String>, finish: &Vec<i64>, deps: &Vec<TaskDependency>, id: &str, start: i64) -> (es: i64)
    requires
        finish@.len() == u@.len(),
    ensures
        es == early_start_for(string_views(u@), finish@, dep_views(deps@), id@, start),
{
    let ghost uv = string_views(u@);
    let preds = predecessors_of(deps, id);
    let ghost ps = string_views(preds@);
    let mut best: Option<i64> = None;
    let mut i: usize = 0;
    while i < preds.len()
        invariant
            0 <= i <= preds@.len(),
            uv == string_views(u@),
            ps == string_views(preds@),
            finish@.len() == u@.len(),
            match latest_finish(uv, finish@, ps.take(i as int)) {
                Some(m) => best matches Some(b) && b == m,
                None => best is None,
            },
        decreases preds.len() - i,
    {
        proof {
            assert(ps.take(i as int + 1).drop_last() =~= ps.take(i as int));
            assert(ps.take(i as int + 1).last() == preds@[i as int]@);
        }
        match position(u, preds[i].as_str()) {
            Some(k) => {
                let f = finish[k];
                best = match best {
                    Some(b) => Some(if f > b { f } else { b }),
                    None => Some(f),
                };
            },
            None => {},
        }
        i = i + 1;
    }
    proof {
        assert(ps.take(ps.len() as int) =~= ps);
    }
    match best {
        Some(b) => b,
        None => start,
    }
}

/// The latest early finish of the tasks; none among none.
pub open spec fn latest_early_finish(s: Seq<ScheduledTask>) -> Option<int>
    decreases s.len(),
{
    if s.len() == 0 {
        None
    } else {
        let f = s.last().early_finish as int;
        match latest_early_finish(s.drop_last()) {
            Some(m) => Some(if f > m { f } else { m }),
            None => Some(f),
        }
    }
}

/// The earliest late start of the tasks whose identifiers are among `names`; none
/// where there are no such tasks.
pub open spec fn earliest_late_start_among(s: Seq<ScheduledTask>, names: Seq<Seq<char>>) -> Option<int>
    decreases s.len(),
{
    if s.len() == 0 {
        None
    } else {
        let r = earliest_late_start_among(s.drop_last(), names);
        let l = s.last().late_start as int;
        if names.contains(s.last().task_id@) {
            match r {
                Some(m) => Some(if l < m { l } else { m }),
                None => Some(l),
            }
        } else {
            r
        }
    }
}

/// The late finish of a task: the earliest late start of its successors in the
/// schedule; the end of the project where it has none.
pub open spec fn late_finish_for(sched: Seq<ScheduledTask>, deps: Seq<(Seq<char>, Seq<char>)>, id: Seq<char>) -> int {
    match earliest_late_start_among(sched, succs_of(deps, id)) {
        Some(m) => m,
        None => match latest_early_finish(sched) {
            Some(e) => e,
            None => 0,
        },
    }
}

/// The schedule with the late dates of the first task with the identifier set.
pub open spec fn set_late(sched: Seq<ScheduledTask>, id: Seq<char>, ls: i64, lf: i64) -> Seq<ScheduledTask> {
    match find_scheduled(sched, id) {
        Some(i) => sched.update(i, ScheduledTask { late_start: ls, late_finish: lf, ..sched[i] }),
        None => sched,
    }
}

/// The backward pass from a state: the stack of tasks still to visit, which tasks were
/// visited and the schedule. It takes the last task of the stack; a visited one is
/// passed over; an unknown one stops the pass with its identifier; another finishes
/// late when its first successor starts late (or at the end of the project), starts
/// late a day before, and puts its predecessors on the stack.
pub open spec fn backward(
    u: Seq<Seq<char>>,
    deps: Seq<(Seq<char>, Seq<char>)>,
    queue: Seq<Seq<char>>,
    done: Seq<bool>,
    sched: Seq<ScheduledTask>,
) -> Result<Seq<ScheduledTask>, Seq<char>>
    decreases count_false(done), queue.len(),
{
    if queue.len() == 0 {
        Ok(sched)
    } else {
        let id = queue.last();
        let rest = queue.drop_last();
        match position_of(u, id) {
            None => Err(id),
            Some(k) => {
                if k < 0 || k >= done.len() {
                    Ok(sched)
                } else if done[k] {
                    backward(u, deps, rest, done, sched)
                } else {
                    let lf = late_finish_for(sched, deps, id);
                    let ls = lf - DAY_MILLIS;
                    proof {
                        lemma_count_false_mark(done, k);
                    }
                    backward(
                        u,
                        deps,
                        rest + preds_of(deps, id),
                        done.update(k, true),
                        set_late(sched, id, ls as i64, lf as i64),
                    )
                }
            },
        }
    }
}

/// The schedule with every task finishing late at `end` and starting late its
/// duration before.
pub open spec fn with_late_end(s: Seq<ScheduledTask>, end: int) -> Seq<ScheduledTask> {
    s.map_values(|t: ScheduledTask| ScheduledTask {
        late_finish: end as i64,
        late_start: (end - t.duration) as i64,
        ..t
    })
}

/// The outcome of the backward pass of a scheduler over the early schedule.
pub open spec fn backward_of(ids: Seq<String>, deps: Seq<TaskDependency>, early: Seq<ScheduledTask>) -> Result<Seq<ScheduledTask>, Seq<char>> {
    let u = distinct(string_views(ids));
    let dv = dep_views(deps);
    match latest_early_finish(early) {
        None => Ok(early),
        Some(end) => backward(
            u,
            dv,
            leaves_of(u, dv),
            Seq::new(u.len(), |i: int| false),
            with_late_end(early, end),
        ),
    }
}

/// Whether every task of a schedule starts late within `[lo, hi - DAY_MILLIS]` and
/// finishes late within `[lo, hi]`.
pub open spec fn late_within(sched: Seq<ScheduledTask>, lo: int, hi: int) -> bool {
    forall|i: int| 0 <= i < sched.len() ==> {
        &&& lo <= (#[trigger] sched[i]).late_start <= hi - DAY_MILLIS
        &&& lo <= sched[i].late_finish <= hi
    }
}

/// The schedule with each task's total slack, its late start less its early start,
/// and its criticality, having none.
pub open spec fn with_slack(s: Seq<ScheduledTask>) -> Seq<ScheduledTask> {
    s.map_values(|t: ScheduledTask| ScheduledTask {
        total_slack: (t.late_start - t.early_start) as i64,
        is_critical: t.late_start == t.early_start,
        ..t
    })
}

/// The tasks of the schedule that follow the task `id` under the dependencies, in order.
pub open spec fn successors_in(s: Seq<ScheduledTask>, deps: Seq<(Seq<char>, Seq<char>)>, id: Seq<char>) -> Seq<ScheduledTask> {
    s.filter(|t: ScheduledTask| succs_of(deps, id).contains(t.task_id@))
}

/// The schedule with each task's free slack before its successors in the schedule.
pub open spec fn with_free_slack(s: Seq<ScheduledTask>, deps: Seq<(Seq<char>, Seq<char>)>) -> Seq<ScheduledTask> {
    s.map_values(|t: ScheduledTask| ScheduledTask {
        free_slack: free_slack_of(t, successors_in(s, deps, t.task_id@)) as i64,
        ..t
    })
}

/// The smallest early start of the tasks; none among none.
pub open spec fn min_early_start(s: Seq<ScheduledTask>) -> Option<int>
    decreases s.len(),
{
    if s.len() == 0 {
        None
    } else {
        let e = s.last().early_start as int;
        match min_early_start(s.drop_last()) {
            Some(m) => Some(if e < m { e } else { m }),
            None => Some(e),
        }
    }
}

/// Whether a dependency leads from `a` to `b`.
pub open spec fn has_dependency(deps: Seq<(Seq<char>, Seq<char>)>, a: Seq<char>, b: Seq<char>) -> bool {
    exists|k: int| 0 <= k < deps.len() && (#[trigger] deps[k]) == (a, b)
}

/// The position of the first critical task, from position `i` on, that starts early at
/// `es`.
pub open spec fn first_critical_at(s: Seq<ScheduledTask>, es: int, i: int) -> Option<int>
    decreases s.len() - i,
{
    if i < 0 || i >= s.len() {
        None
    } else if s[i].is_critical && s[i].early_start == es {
        Some(i)
    } else {
        first_critical_at(s, es, i + 1)
    }
}

/// The position of the first critical task, from position `i` on, that the task `cur`
/// leads to and that starts no earlier than `cur` finishes.
pub open spec fn next_critical_from(s: Seq<ScheduledTask>, deps: Seq<(Seq<char>, Seq<char>)>, cur: ScheduledTask, i: int) -> Option<int>
    decreases s.len() - i,
{
    if i < 0 || i >= s.len() {
        None
    } else if s[i].is_critical && s[i].early_start >= cur.early_finish && has_dependency(deps, cur.task_id@, s[i].task_id@) {
        Some(i)
    } else {
        next_critical_from(s, deps, cur, i + 1)
    }
}

/// The chain of critical tasks from the task at `cur`, after `path`: each next one is
/// the first critical task that the current one leads to and that starts no earlier
/// than it finishes.
pub open spec fn chain(s: Seq<ScheduledTask>, deps: Seq<(Seq<char>, Seq<char>)>, cur: int, path: Seq<Seq<char>>) -> Seq<Seq<char>>
    decreases i64::MAX - s[cur].early_start,
{
    if cur < 0 || cur >= s.len() {
        path
    } else {
        let p = path.push(s[cur].task_id@);
        match next_critical_from(s, deps, s[cur], 0) {
            None => p,
            Some(j) => if 0 <= j < s.len() && s[j].early_start > s[cur].early_start {
                chain(s, deps, j, p)
            } else {
                p
            },
        }
    }
}

/// The critical path the scheduler finds: the chain from the first critical task that
/// starts at the earliest early start; empty where there is none.
pub open spec fn schedule_path(s: Seq<ScheduledTask>, deps: Seq<(Seq<char>, Seq<char>)>) -> Seq<Seq<char>> {
    match min_early_start(s) {
        None => Seq::empty(),
        Some(m) => match first_critical_at(s, m, 0) {
            None => Seq::empty(),
            Some(i) => chain(s, deps, i, Seq::empty()),
        },
    }
}

/// What a schedule made by the scheduler holds, for the tasks after both passes.
pub open spec fn schedule_made(r: ProjectSchedule, code: String, deps: Seq<TaskDependency>, late: Seq<ScheduledTask>, start: i64) -> bool {
    let t = with_free_slack(with_slack(late), dep_views(deps));
    &&& r.project_id == code
    &&& r.tasks@ == t
    &&& string_views(r.critical_path@) == schedule_path(t, dep_views(deps))
    &&& (t.len() > 0 ==> r.total_duration == latest_early_finish(t)->0 - min_early_start(t)->0)
    &&& r.start_date == start
    &&& r.end_date == start + r.total_duration
    &&& r.resource_assignments@.len() == 0
    &&& r.conflicts@.len() == 0
}

/// Whether a project start leaves room for a schedule of `n` tasks, each of a day,
/// far inside what `i64` holds.
pub open spec fn start_fits(start: i64, n: int) -> bool {
    &&& schedule_time(start - (n + 2) * DAY_MILLIS)
    &&& schedule_time(start + (n + 2) * DAY_MILLIS)
}

/// The error for a task that the scheduler does not know.
pub open spec fn task_not_found(e: DomainError, id: Seq<char>) -> bool {
    e matches DomainError::EntityNotFound { entity_type, identifier } && entity_type@ == "Task"@ && identifier@ == id
}

fn task_not_found_error(id: String) -> (e: DomainError)
    ensures
        task_not_found(e, id@),
{
    DomainError::EntityNotFound { entity_type: String::from_str("Task"), identifier: id }
}

/// The outcome of the forward pass of a scheduler.
pub open spec fn forward_of(ids: Seq<String>, deps: Seq<TaskDependency>, start: i64) -> Result<Seq<ScheduledTask>, Seq<char>> {
    let u = distinct(string_views(ids));
    let dv = dep_views(deps);
    forward(
        u,
        dv,
        start,
        roots_of(u, dv),
        Seq::new(u.len(), |i: int| false),
        Seq::new(u.len(), |i: int| (start + DAY_MILLIS) as i64),
        initial_schedule(ids, start),
    )
}

/// Whether every task of a schedule lasts a day, finishes early a day after it starts
/// early, and starts early within `[lo, hi]`.
pub open spec fn early_within(sched: Seq<ScheduledTask>, lo: int, hi: int) -> bool {
    forall|i: int| 0 <= i < sched.len() ==> {
        &&& lo <= (#[trigger] sched[i]).early_start <= hi
        &&& sched[i].early_finish == sched[i].early_start + DAY_MILLIS
        &&& sched[i].duration == DAY_MILLIS
    }
}

/// A scheduler of the tasks of a project, known by their identifiers, under the
/// dependencies between them. Every task lasts a day.
#[derive(Debug)]
pub struct Scheduler {
    pub project_code: String,
    pub task_ids: Vec<String>,
    pub dependencies: Vec<TaskDependency>,
}

impl Scheduler {
    /// A scheduler of the tasks of a project under the dependencies.
    pub fn new(project_code: String, task_ids: Vec<String>, dependencies: Vec<TaskDependency>) -> (s: Scheduler)
        ensures
            s.project_code == project_code,
            s.task_ids == task_ids,
            s.dependencies == dependencies,
    {
        Scheduler { project_code, task_ids, dependencies }
    }

    fn forward_pass(&self, start: i64) -> (r: Result<Vec<ScheduledTask>, DomainError>)
        requires
            start_fits(start, self.task_ids@.len() as int),
        ensures
            match forward_of(self.task_ids@, self.dependencies@, start) {
                Ok(s) => r matches Ok(v) && v@ == s && early_within(s, start as int, start + self.task_ids@.len() * DAY_MILLIS),
                Err(id) => r matches Err(e) && task_not_found(e, id),
            },
    {
        let n = self.task_ids.len();
        let u = distinct_ids(&self.task_ids);
        let ghost uv = string_views(u@);
        let ghost dv = dep_views(self.dependencies@);
        proof {
            lemma_distinct_len(string_views(self.task_ids@));
        }
        let mut sched: Vec<ScheduledTask> = Vec::new();
        let mut i: usize = 0;
        while i < n
            invariant
                0 <= i <= n,
                n == self.task_ids@.len(),
                start_fits(start, n as int),
                sched@ == initial_schedule(self.task_ids@.take(i as int), start),
            decreases n - i,
        {
            let t = ScheduledTask::new(self.task_ids[i].clone(), start, start, DAY_MILLIS);
            let ghost before = sched@;
            sched.push(t);
            proof {
                assert(self.task_ids@.take(i as int + 1) =~= self.task_ids@.take(i as int).push(self.task_ids@[i as int]));
                assert(sched@ =~= initial_schedule(self.task_ids@.take(i as int + 1), start));
            }
            i = i + 1;
        }
        proof {
            assert(self.task_ids@.take(n as int) =~= self.task_ids@);
        }
        let mut done: Vec<bool> = Vec::new();
        let mut finish: Vec<i64> = Vec::new();
        let mut k: usize = 0;
        while k < u.len()
            invariant
                0 <= k <= u@.len(),
                done@ == Seq::new(k as nat, |i: int| false),
                finish@ == Seq::new(k as nat, |i: int| (start + DAY_MILLIS) as i64),
                start_fits(start, n as int),
            decreases u.len() - k,
        {
            done.push(false);
            finish.push(start + DAY_MILLIS);
            proof {
                assert(done@ =~= Seq::new(k as nat + 1, |i: int| false));
                assert(finish@ =~= Seq::new(k as nat + 1, |i: int| (start + DAY_MILLIS) as i64));
            }
            k = k + 1;
        }
        let mut queue = root_ids(&u, &self.dependencies);
        let ghost goal = forward_of(self.task_ids@, self.dependencies@, start);
        proof {
            lemma_count_false_bound(done@);
            assert(done@.len() == uv.len());
        }
        while queue.len() > 0
            invariant
                uv == string_views(u@),
                dv == dep_views(self.dependencies@),
                uv.len() <= n,
                n == self.task_ids@.len(),
                start_fits(start, n as int),
                done@.len() == uv.len(),
                finish@.len() == uv.len(),
                count_false(done@) <= done@.len(),
                forall|q: int| 0 <= q < finish@.len() ==> start + DAY_MILLIS <= #[trigger] finish@[q]
                    <= start + (uv.len() - count_false(done@) + 1) * DAY_MILLIS,
                sched@.len() == n,
                early_within(sched@, start as int, start + (uv.len() - count_false(done@)) * DAY_MILLIS),
                forward(uv, dv, start, string_views(queue@), done@, finish@, sched@) == goal,
                goal == forward_of(self.task_ids@, self.dependencies@, start),
            decreases count_false(done@), queue.len(),
        {
            let ghost q0 = string_views(queue@);
            let id = queue.pop().unwrap();
            proof {
                assert(string_views(queue@) =~= q0.drop_last());
                assert(q0.last() == id@);
            }
            match position(&u, id.as_str()) {
                None => {
                    assert(forward(uv, dv, start, q0, done@, finish@, sched@) == Err::<Seq<ScheduledTask>, Seq<char>>(id@));
                    return Err(task_not_found_error(id));
                },
                Some(k) => {
                    if done[k] {
                        assert(forward(uv, dv, start, q0, done@, finish@, sched@) == forward(uv, dv, start, string_views(queue@), done@, finish@, sched@));
                        continue;
                    }
                    let ghost s0 = sched@;
                    let ghost f0 = finish@;
                    let ghost d0 = done@;
                    let ghost p = uv.len() - count_false(done@);
                    let es = early_start(&u, &finish, &self.dependencies, id.as_str(), start);
                    proof {
                        lemma_latest_finish_bounds(uv, finish@, preds_of(dv, id@), start + DAY_MILLIS, start + (p + 1) * DAY_MILLIS);
                    }
                    let ef = es + DAY_MILLIS;
                    match find_task_position(&sched, id.as_str()) {
                        Some(j) => {
                            sched[j].early_start = es;
                            sched[j].early_finish = ef;
                        },
                        None => {},
                    }
                    proof {
                        lemma_count_false_mark(done@, k as int);
                    }
                    finish.set(k, ef);
                    done.set(k, true);
                    let mut next = successors_of(&self.dependencies, id.as_str());
                    let ghost before = string_views(queue@);
                    queue.append(&mut next);
                    proof {
                        assert(string_views(queue@) =~= before + succs_of(dv, id@));
                        lemma_count_false_bound(done@);
                        assert(sched@ == set_early(s0, id@, es, ef));
                        assert(finish@ == f0.update(k as int, ef));
                        assert(done@ == d0.update(k as int, true));
                        assert(forward(uv, dv, start, q0, d0, f0, s0) == forward(uv, dv, start, string_views(queue@), done@, finish@, sched@));
                    }
                },
            }
        }
        Ok(sched)
    }
}

/// The latest early finish depends on the early finishes alone.
pub proof fn lemma_latest_early_finish_same(s1: Seq<ScheduledTask>, s2: Seq<ScheduledTask>)
    requires
        s1.len() == s2.len(),
        forall|i: int| 0 <= i < s1.len() ==> (#[trigger] s1[i]).early_finish == s2[i].early_finish,
    ensures
        latest_early_finish(s1) == latest_early_finish(s2),
    decreases s1.len(),
{
    if s1.len() > 0 {
        assert forall|i: int| 0 <= i < s1.drop_last().len() implies (#[trigger] s1.drop_last()[i]).early_finish == s2.drop_last()[i].early_finish by {
            assert(s1.drop_last()[i] == s1[i]);
            assert(s2.drop_last()[i] == s2[i]);
        }
        lemma_latest_early_finish_same(s1.drop_last(), s2.drop_last());
        assert(s1.last() == s1[s1.len() - 1]);
    }
}

/// The latest early finish lies among the early finishes, and there is one where there
/// are tasks.
pub proof fn lemma_latest_early_finish_bounds(s: Seq<ScheduledTask>, lo: int, hi: int)
    requires
        forall|i: int| 0 <= i < s.len() ==> lo <= (#[trigger] s[i]).early_finish <= hi,
    ensures
        latest_early_finish(s) matches Some(m) ==> lo <= m <= hi,
        s.len() > 0 <==> latest_early_finish(s) is Some,
    decreases s.len(),
{
    if s.len() > 0 {
        assert forall|i: int| 0 <= i < s.drop_last().len() implies lo <= (#[trigger] s.drop_last()[i]).early_finish <= hi by {
            assert(s.drop_last()[i] == s[i]);
        }
        lemma_latest_early_finish_bounds(s.drop_last(), lo, hi);
        assert(s.last() == s[s.len() - 1]);
    }
}

/// The earliest late start among some tasks lies among their late starts.
pub proof fn lemma_earliest_late_start_bounds(s: Seq<ScheduledTask>, names: Seq<Seq<char>>, lo: int, hi: int)
    requires
        forall|i: int| 0 <= i < s.len() ==> lo <= (#[trigger] s[i]).late_start <= hi,
    ensures
        earliest_late_start_among(s, names) matches Some(m) ==> lo <= m <= hi,
    decreases s.len(),
{
    if s.len() > 0 {
        assert forall|i: int| 0 <= i < s.drop_last().len() implies lo <= (#[trigger] s.drop_last()[i]).late_start <= hi by {
            assert(s.drop_last()[i] == s[i]);
        }
        lemma_earliest_late_start_bounds(s.drop_last(), names, lo, hi);
        assert(s.last() == s[s.len() - 1]);
    }
}

fn latest_finish_of(sched: &Vec<ScheduledTask>) -> (r: Option<i64>)
    ensures
        match latest_early_finish(sched@) {
            Some(m) => r matches Some(x) && x == m,
            None => r is None,
        },
{
    let mut best: Option<i64> = None;
    let mut i: usize = 0;
    while i < sched.len()
        invariant
            0 <= i <= sched@.len(),
            match latest_early_finish(sched@.take(i as int)) {
                Some(m) => best matches Some(x) && x == m,
                None => best is None,
            },
        decreases sched.len() - i,
    {
        proof {
            assert(sched@.take(i as int + 1).drop_last() =~= sched@.take(i as int));
        }
        let f = sched[i].early_finish;
        best = match best {
            Some(b) => Some(if f > b { f } else { b }),
            None => Some(f),
        };
        i = i + 1;
    }
    proof {
        assert(sched@.take(sched@.len() as int) =~= sched@);
    }
    best
}

fn late_finish(sched: &Vec<ScheduledTask>, deps: &Vec<TaskDependency>, id: &str) -> (lf: i64)
    ensures
        lf == late_finish_for(sched@, dep_views(deps@), id@),
{
    let succ = successors_of(deps, id);
    let ghost names = string_views(succ@);
    let mut best: Option<i64> = None;
    let mut i: usize = 0;
    while i < sched.len()
        invariant
            0 <= i <= sched@.len(),
            names == string_views(succ@),
            match earliest_late_start_among(sched@.take(i as int), names) {
                Some(m) => best matches Some(x) && x == m,
                None => best is None,
            },
        decreases sched.len() - i,
    {
        proof {
            assert(sched@.take(i as int + 1).drop_last() =~= sched@.take(i as int));
        }
        if strings_contain(&succ, sched[i].task_id.as_str()) {
            let l = sched[i].late_start;
            best = match best {
                Some(b) => Some(if l < b { l } else { b }),
                None => Some(l),
            };
        }
        i = i + 1;
    }
    proof {
        assert(sched@.take(sched@.len() as int) =~= sched@);
    }
    match best {
        Some(b) => b,
        None => match latest_finish_of(sched) {
            Some(e) => e,
            None => 0,
        },
    }
}

impl Scheduler {
    fn backward_pass(&self, early: Vec<ScheduledTask>, start: i64) -> (r: Result<Vec<ScheduledTask>, DomainError>)
        requires
            start_fits(start, self.task_ids@.len() as int),
            early_within(early@, start as int, start + self.task_ids@.len() * DAY_MILLIS),
        ensures
            match backward_of(self.task_ids@, self.dependencies@, early@) {
                Ok(s) => r matches Ok(v) && v@ == s
                    && s.len() == early@.len()
                    && early_within(s, start as int, start + self.task_ids@.len() * DAY_MILLIS)
                    && late_within(s, start - (self.task_ids@.len() + 1) * DAY_MILLIS, start + (self.task_ids@.len() + 1) * DAY_MILLIS),
                Err(id) => r matches Err(e) && task_not_found(e, id),
            },
    {
        let n = self.task_ids.len();
        let ghost e0 = early@;
        let ghost lo = start - (n + 1) * DAY_MILLIS;
        let ghost hi = start + (n + 1) * DAY_MILLIS;
        proof {
            lemma_latest_early_finish_bounds(e0, start + DAY_MILLIS, hi);
        }
        let end = match latest_finish_of(&early) {
            None => {
                return Ok(early);
            },
            Some(e) => e,
        };
        let mut sched = early;
        let mut i: usize = 0;
        while i < sched.len()
            invariant
                0 <= i <= sched@.len(),
                sched@.len() == e0.len(),
                start_fits(start, n as int),
                early_within(e0, start as int, start + n * DAY_MILLIS),
                start + DAY_MILLIS <= end <= hi,
                hi == start + (n + 1) * DAY_MILLIS,
                forall|j: int| 0 <= j < i ==> sched@[j] == #[trigger] with_late_end(e0, end as int)[j],
                forall|j: int| i <= j < sched@.len() ==> sched@[j] == e0[j],
            decreases sched.len() - i,
        {
            assert(sched@[i as int] == e0[i as int]);
            let d = sched[i].duration;
            sched[i].late_finish = end;
            sched[i].late_start = end - d;
            i = i + 1;
        }
        assert(sched@ =~= with_late_end(e0, end as int));
        let u = distinct_ids(&self.task_ids);
        let ghost uv = string_views(u@);
        let ghost dv = dep_views(self.dependencies@);
        proof {
            lemma_distinct_len(string_views(self.task_ids@));
        }
        let mut done: Vec<bool> = Vec::new();
        let mut k: usize = 0;
        while k < u.len()
            invariant
                0 <= k <= u@.len(),
                done@ == Seq::new(k as nat, |i: int| false),
            decreases u.len() - k,
        {
            done.push(false);
            proof {
                assert(done@ =~= Seq::new(k as nat + 1, |i: int| false));
            }
            k = k + 1;
        }
        let mut queue = leaf_ids(&u, &self.dependencies);
        let ghost goal = backward_of(self.task_ids@, self.dependencies@, e0);
        proof {
            lemma_count_false_bound(done@);
            lemma_latest_early_finish_same(sched@, e0);
        }
        while queue.len() > 0
            invariant
                uv == string_views(u@),
                dv == dep_views(self.dependencies@),
                uv.len() <= n,
                n == self.task_ids@.len(),
                start_fits(start, n as int),
                done@.len() == uv.len(),
                count_false(done@) <= done@.len(),
                sched@.len() == e0.len(),
                start + DAY_MILLIS <= end <= hi,
                hi == start + (n + 1) * DAY_MILLIS,
                lo == start - (n + 1) * DAY_MILLIS,
                latest_early_finish(sched@) == Some(end as int),
                early_within(sched@, start as int, start + n * DAY_MILLIS),
                forall|q: int| 0 <= q < sched@.len() ==> {
                    &&& end - (uv.len() - count_false(done@) + 1) * DAY_MILLIS <= (#[trigger] sched@[q]).late_start <= end - DAY_MILLIS
                    &&& end - (uv.len() - count_false(done@) + 1) * DAY_MILLIS <= sched@[q].late_finish <= end
                },
                backward(uv, dv, string_views(queue@), done@, sched@) == goal,
                goal == backward_of(self.task_ids@, self.dependencies@, e0),
                e0 == early@,
                latest_early_finish(e0) == Some(end as int),
            decreases count_false(done@), queue.len(),
        {
            let ghost q0 = string_views(queue@);
            let id = queue.pop().unwrap();
            proof {
                assert(string_views(queue@) =~= q0.drop_last());
                assert(q0.last() == id@);
            }
            match position(&u, id.as_str()) {
                None => {
                    assert(backward(uv, dv, q0, done@, sched@) == Err::<Seq<ScheduledTask>, Seq<char>>(id@));
                    assert(goal == Err::<Seq<ScheduledTask>, Seq<char>>(id@));
                    assert(backward_of(self.task_ids@, self.dependencies@, e0) == Err::<Seq<ScheduledTask>, Seq<char>>(id@));
                    return Err(task_not_found_error(id));
                },
                Some(k) => {
                    if done[k] {
                        assert(backward(uv, dv, q0, done@, sched@) == backward(uv, dv, string_views(queue@), done@, sched@));
                        continue;
                    }
                    let ghost s0 = sched@;
                    let ghost d0 = done@;
                    let ghost p = uv.len() - count_false(done@);
                    let lf = late_finish(&sched, &self.dependencies, id.as_str());
                    proof {
                        lemma_earliest_late_start_bounds(s0, succs_of(dv, id@), end - (p + 1) * DAY_MILLIS, end - DAY_MILLIS);
                    }
                    let ls = lf - DAY_MILLIS;
                    match find_task_position(&sched, id.as_str()) {
                        Some(j) => {
                            sched[j].late_start = ls;
                            sched[j].late_finish = lf;
                        },
                        None => {},
                    }
                    proof {
                        lemma_count_false_mark(done@, k as int);
                    }
                    done.set(k, true);
                    let mut next = predecessors_of(&self.dependencies, id.as_str());
                    let ghost before = string_views(queue@);
                    queue.append(&mut next);
                    proof {
                        assert(string_views(queue@) =~= before + preds_of(dv, id@));
                        lemma_count_false_bound(done@);
                        assert(sched@ == set_late(s0, id@, ls, lf));
                        assert(done@ == d0.update(k as int, true));
                        lemma_latest_early_finish_same(sched@, s0);
                        assert(backward(uv, dv, q0, d0, s0) == backward(uv, dv, string_views(queue@), done@, sched@));
                    }
                },
            }
        }
        Ok(sched)
    }
}

/// The smallest early start lies among the early starts, and there is one where there
/// are tasks.
pub proof fn lemma_min_early_start_bounds(s: Seq<ScheduledTask>, lo: int, hi: int)
    requires
        forall|i: int| 0 <= i < s.len() ==> lo <= (#[trigger] s[i]).early_start <= hi,
    ensures
        min_early_start(s) matches Some(m) ==> lo <= m <= hi,
        s.len() > 0 <==> min_early_start(s) is Some,
    decreases s.len(),
{
    if s.len() > 0 {
        assert forall|i: int| 0 <= i < s.drop_last().len() implies lo <= (#[trigger] s.drop_last()[i]).early_start <= hi by {
            assert(s.drop_last()[i] == s[i]);
        }
        lemma_min_early_start_bounds(s.drop_last(), lo, hi);
        assert(s.last() == s[s.len() - 1]);
    }
}

/// The earliest early start is no later than that of the first task.
pub proof fn lemma_earliest_start_at_most_first(s: Seq<ScheduledTask>)
    requires
        s.len() > 0,
    ensures
        earliest_start(s) <= s[0].early_start,
    decreases s.len(),
{
    if s.len() > 1 {
        lemma_earliest_start_at_most_first(s.drop_last());
        assert(s.drop_last()[0] == s[0]);
    }
}

/// The first critical task found from `i` on is one.
pub proof fn lemma_next_critical_from(s: Seq<ScheduledTask>, deps: Seq<(Seq<char>, Seq<char>)>, cur: ScheduledTask, i: int)
    requires
        0 <= i <= s.len(),
    ensures
        next_critical_from(s, deps, cur, i) matches Some(j) ==> i <= j < s.len() && s[j].early_start >= cur.early_finish,
    decreases s.len() - i,
{
    if i < s.len() {
        lemma_next_critical_from(s, deps, cur, i + 1);
    }
}

fn min_start_of(sched: &Vec<ScheduledTask>) -> (r: Option<i64>)
    ensures
        match min_early_start(sched@) {
            Some(m) => r matches Some(x) && x == m,
            None => r is None,
        },
{
    let mut best: Option<i64> = None;
    let mut i: usize = 0;
    while i < sched.len()
        invariant
            0 <= i <= sched@.len(),
            match min_early_start(sched@.take(i as int)) {
                Some(m) => best matches Some(x) && x == m,
                None => best is None,
            },
        decreases sched.len() - i,
    {
        proof {
            assert(sched@.take(i as int + 1).drop_last() =~= sched@.take(i as int));
        }
        let e = sched[i].early_start;
        best = match best {
            Some(b) => Some(if e < b { e } else { b }),
            None => Some(e),
        };
        i = i + 1;
    }
    proof {
        assert(sched@.take(sched@.len() as int) =~= sched@);
    }
    best
}

fn depends(deps: &Vec<TaskDependency>, a: &str, b: &str) -> (r: bool)
    ensures
        r == has_dependency(dep_views(deps@), a@, b@),
{
    let ghost dv = dep_views(deps@);
    let mut i: usize = 0;
    while i < deps.len()
        invariant
            0 <= i <= deps@.len(),
            dv == dep_views(deps@),
            forall|k: int| 0 <= k < i ==> (#[trigger] dv[k]) != (a@, b@),
        decreases deps.len() - i,
    {
        if str_eq(deps[i].predecessor.as_str(), a) && str_eq(deps[i].successor.as_str(), b) {
            assert(dv[i as int] == (a@, b@));
            return true;
        }
        i = i + 1;
    }
    false
}

impl Scheduler {
    fn calculate_slack(&self, schedule: Vec<ScheduledTask>) -> (r: Vec<ScheduledTask>)
        requires
            forall|i: int| 0 <= i < schedule@.len() ==> schedule_time((#[trigger] schedule@[i]).early_start as int)
                && schedule_time(schedule@[i].late_start as int),
        ensures
            r@ == with_slack(schedule@),
    {
        let ghost s0 = schedule@;
        let mut tasks = schedule;
        let mut i: usize = 0;
        while i < tasks.len()
            invariant
                0 <= i <= tasks@.len(),
                tasks@.len() == s0.len(),
                forall|j: int| 0 <= j < s0.len() ==> schedule_time((#[trigger] s0[j]).early_start as int)
                    && schedule_time(s0[j].late_start as int),
                forall|j: int| 0 <= j < i ==> tasks@[j] == #[trigger] with_slack(s0)[j],
                forall|j: int| i <= j < tasks@.len() ==> tasks@[j] == s0[j],
            decreases tasks.len() - i,
        {
            assert(tasks@[i as int] == s0[i as int]);
            let slack = tasks[i].late_start - tasks[i].early_start;
            tasks[i].total_slack = slack;
            tasks[i].is_critical = slack == 0;
            i = i + 1;
        }
        assert(tasks@ =~= with_slack(s0));
        tasks
    }

    fn calculate_free_slack(&self, tasks: &mut Vec<ScheduledTask>)
        requires
            early_within(old(tasks)@, -0x2000_0000_0000_0000, 0x2000_0000_0000_0000),
        ensures
            final(tasks)@ == with_free_slack(old(tasks)@, dep_views(self.dependencies@)),
    {
        let ghost s0 = tasks@;
        let ghost dv = dep_views(self.dependencies@);
        let mut frees: Vec<i64> = Vec::new();
        let mut i: usize = 0;
        while i < tasks.len()
            invariant
                0 <= i <= tasks@.len(),
                tasks@ == s0,
                dv == dep_views(self.dependencies@),
                early_within(s0, -0x2000_0000_0000_0000, 0x2000_0000_0000_0000),
                frees@.len() == i,
                forall|j: int| 0 <= j < i ==> #[trigger] frees@[j] == free_slack_of(s0[j], successors_in(s0, dv, s0[j].task_id@)),
            decreases tasks.len() - i,
        {
            let succ_ids = successors_of(&self.dependencies, tasks[i].task_id.as_str());
            let ghost names = string_views(succ_ids@);
            let mut succ: Vec<&ScheduledTask> = Vec::new();
            let mut k: usize = 0;
            while k < tasks.len()
                invariant
                    0 <= k <= tasks@.len(),
                    tasks@ == s0,
                    names == string_views(succ_ids@),
                    names == succs_of(dv, s0[i as int].task_id@),
                    0 <= i < s0.len(),
                    succ@.map_values(|t: &ScheduledTask| *t) == s0.take(k as int).filter(|t: ScheduledTask| names.contains(t.task_id@)),
                    early_within(s0, -0x2000_0000_0000_0000, 0x2000_0000_0000_0000),
                    forall|q: int| 0 <= q < succ@.len() ==> -0x2000_0000_0000_0000 <= (#[trigger] succ@[q]).early_start <= 0x2000_0000_0000_0000,
                decreases tasks.len() - k,
            {
                proof {
                    let before = s0.take(k as int);
                    assert(s0.take(k as int + 1) =~= before.push(s0[k as int]));
                    reveal(Seq::filter);
                    assert(before.push(s0[k as int]).drop_last() =~= before);
                }
                let ghost b = succ@;
                if strings_contain(&succ_ids, tasks[k].task_id.as_str()) {
                    succ.push(&tasks[k]);
                    assert(succ@.map_values(|t: &ScheduledTask| *t) =~= b.map_values(|t: &ScheduledTask| *t).push(s0[k as int]));
                }
                k = k + 1;
            }
            proof {
                assert(s0.take(s0.len() as int) =~= s0);
                let sv = succ@.map_values(|t: &ScheduledTask| *t);
                if sv.len() > 0 {
                    lemma_earliest_start_at_most_first(sv);
                    assert(sv[0] == *succ@[0]);
                }
                assert(s0[i as int] == tasks@[i as int]);
            }
            let f = tasks[i].free_slack_before(succ.as_slice());
            frees.push(f);
            i = i + 1;
        }
        let mut j: usize = 0;
        while j < tasks.len()
            invariant
                0 <= j <= tasks@.len(),
                tasks@.len() == s0.len(),
                frees@.len() == s0.len(),
                forall|q: int| 0 <= q < s0.len() ==> #[trigger] frees@[q] == free_slack_of(s0[q], successors_in(s0, dv, s0[q].task_id@)),
                forall|q: int| 0 <= q < j ==> tasks@[q] == #[trigger] with_free_slack(s0, dv)[q],
                forall|q: int| j <= q < tasks@.len() ==> tasks@[q] == s0[q],
            decreases tasks.len() - j,
        {
            tasks[j].free_slack = frees[j];
            j = j + 1;
        }
        assert(tasks@ =~= with_free_slack(s0, dv));
    }
}

/// The first position from `i` on of a critical task starting early at `es`, where one is.
pub proof fn lemma_first_critical_at(s: Seq<ScheduledTask>, es: int, i: int)
    requires
        0 <= i <= s.len(),
    ensures
        first_critical_at(s, es, i) matches Some(j) ==> i <= j < s.len(),
    decreases s.len() - i,
{
    if i < s.len() {
        lemma_first_critical_at(s, es, i + 1);
    }
}

fn first_critical(tasks: &Vec<ScheduledTask>, es: i64) -> (r: Option<usize>)
    ensures
        match first_critical_at(tasks@, es as int, 0) {
            Some(j) => r matches Some(k) && k == j && k < tasks@.len(),
            None => r is None,
        },
{
    proof {
        lemma_first_critical_at(tasks@, es as int, 0);
    }
    let mut i: usize = 0;
    while i < tasks.len()
        invariant
            0 <= i <= tasks@.len(),
            first_critical_at(tasks@, es as int, 0) == first_critical_at(tasks@, es as int, i as int),
        decreases tasks.len() - i,
    {
        if tasks[i].is_critical && tasks[i].early_start == es {
            return Some(i);
        }
        i = i + 1;
    }
    None
}

fn next_critical(tasks: &Vec<ScheduledTask>, deps: &Vec<TaskDependency>, cur: usize) -> (r: Option<usize>)
    requires
        cur < tasks@.len(),
    ensures
        match next_critical_from(tasks@, dep_views(deps@), tasks@[cur as int], 0) {
            Some(j) => r matches Some(k) && k == j && k < tasks@.len(),
            None => r is None,
        },
{
    let ghost c = tasks@[cur as int];
    proof {
        lemma_next_critical_from(tasks@, dep_views(deps@), c, 0);
    }
    let mut i: usize = 0;
    while i < tasks.len()
        invariant
            0 <= i <= tasks@.len(),
            cur < tasks@.len(),
            c == tasks@[cur as int],
            next_critical_from(tasks@, dep_views(deps@), c, 0) == next_critical_from(tasks@, dep_views(deps@), c, i as int),
        decreases tasks.len() - i,
    {
        if tasks[i].is_critical && tasks[i].early_start >= tasks[cur].early_finish
            && depends(deps, tasks[cur].task_id.as_str(), tasks[i].task_id.as_str()) {
            return Some(i);
        }
        i = i + 1;
    }
    None
}

impl Scheduler {
    fn identify_critical_path(&self, tasks: &Vec<ScheduledTask>) -> (path: Vec<String>)
        requires
            early_within(tasks@, -0x2000_0000_0000_0000, 0x2000_0000_0000_0000),
        ensures
            string_views(path@) == schedule_path(tasks@, dep_views(self.dependencies@)),
    {
        let ghost dv = dep_views(self.dependencies@);
        let mut path: Vec<String> = Vec::new();
        let m = match min_start_of(tasks) {
            None => {
                assert(string_views(path@) =~= Seq::<Seq<char>>::empty());
                return path;
            },
            Some(m) => m,
        };
        let mut cur = match first_critical(tasks, m) {
            None => {
                assert(string_views(path@) =~= Seq::<Seq<char>>::empty());
                return path;
            },
            Some(i) => i,
        };
        let ghost goal = schedule_path(tasks@, dv);
        assert(string_views(path@) =~= Seq::<Seq<char>>::empty());
        loop
            invariant
                cur < tasks@.len(),
                dv == dep_views(self.dependencies@),
                early_within(tasks@, -0x2000_0000_0000_0000, 0x2000_0000_0000_0000),
                chain(tasks@, dv, cur as int, string_views(path@)) == goal,
                goal == schedule_path(tasks@, dv),
            decreases i64::MAX - tasks@[cur as int].early_start,
        {
            let ghost p0 = string_views(path@);
            path.push(tasks[cur].task_id.clone());
            assert(string_views(path@) =~= p0.push(tasks@[cur as int].task_id@));
            match next_critical(tasks, &self.dependencies, cur) {
                None => {
                    return path;
                },
                Some(j) => {
                    proof {
                        lemma_next_critical_from(tasks@, dv, tasks@[cur as int], 0);
                        assert(tasks@[cur as int].early_finish == tasks@[cur as int].early_start + DAY_MILLIS);
                    }
                    cur = j;
                },
            }
        }
    }

    fn calculate_total_duration(&self, tasks: &Vec<ScheduledTask>) -> (d: i64)
        requires
            early_within(tasks@, -0x2000_0000_0000_0000, 0x2000_0000_0000_0000),
        ensures
            tasks@.len() > 0 ==> d == latest_early_finish(tasks@)->0 - min_early_start(tasks@)->0,
            -0x5000_0000_0000_0000 <= d <= 0x5000_0000_0000_0000,
    {
        proof {
            lemma_latest_early_finish_bounds(tasks@, -0x2000_0000_0000_0000 + DAY_MILLIS, 0x2000_0000_0000_0000 + DAY_MILLIS);
            lemma_min_early_start_bounds(tasks@, -0x2000_0000_0000_0000, 0x2000_0000_0000_0000);
        }
        match (latest_finish_of(tasks), min_start_of(tasks)) {
            (Some(last), Some(first)) => last - first,
            _ => {
                let a = now_millis();
                let b = now_millis();
                a - b
            },
        }
    }

    /// The schedule of the tasks from `start`: the early dates from a forward pass, the
    /// late dates from a backward pass, the total and free slacks, the critical path,
    /// and the duration from the earliest early start to the latest early finish. A
    /// dependency on a task that is not among the scheduler's is refused with an error
    /// that names it.
    pub fn create_schedule(&self, start: i64) -> (r: Result<ProjectSchedule, DomainError>)
        requires
            start_fits(start, self.task_ids@.len() as int),
        ensures
            match forward_of(self.task_ids@, self.dependencies@, start) {
                Err(id) => r matches Err(e) && task_not_found(e, id),
                Ok(early) => match backward_of(self.task_ids@, self.dependencies@, early) {
                    Err(id) => r matches Err(e) && task_not_found(e, id),
                    Ok(late) => r matches Ok(s) && schedule_made(s, self.project_code, self.dependencies@, late, start),
                },
            },
    {
        let n = self.task_ids.len();
        let mut schedule = ProjectSchedule::new(self.project_code.clone(), start);
        let early = match self.forward_pass(start) {
            Ok(v) => v,
            Err(e) => {
                return Err(e);
            },
        };
        let late = match self.backward_pass(early, start) {
            Ok(v) => v,
            Err(e) => {
                return Err(e);
            },
        };
        let ghost l0 = late@;
        let mut tasks = self.calculate_slack(late);
        proof {
            assert forall|i: int| 0 <= i < tasks@.len() implies {
                &&& -0x2000_0000_0000_0000 <= (#[trigger] tasks@[i]).early_start <= 0x2000_0000_0000_0000
                &&& tasks@[i].early_finish == tasks@[i].early_start + DAY_MILLIS
                &&& tasks@[i].duration == DAY_MILLIS
            } by {
                assert(tasks@[i].early_start == l0[i].early_start);
            }
        }
        self.calculate_free_slack(&mut tasks);
        let path = self.identify_critical_path(&tasks);
        let total = self.calculate_total_duration(&tasks);
        schedule.tasks = tasks;
        schedule.critical_path = path;
        schedule.total_duration = total;
        schedule.end_date = start + total;
        self.assign_resources(&mut schedule);
        self.detect_conflicts(&mut schedule);
        proof {
            assert(schedule.conflicts@.map_values(|c: ResourceConflict| conflict_view(c)).len() == 0);
        }
        Ok(schedule)
    }
}

/// Whether every identifier of a path names a critical task of the schedule and each
/// leads to the next under a dependency.
pub open spec fn linked_critical(s: Seq<ScheduledTask>, deps: Seq<(Seq<char>, Seq<char>)>, p: Seq<Seq<char>>) -> bool {
    &&& forall|i: int| 0 <= i < p.len() ==> exists|k: int| 0 <= k < s.len() && s[k].is_critical && s[k].task_id@ == #[trigger] p[i]
    &&& forall|i: int| 0 <= i < p.len() - 1 ==> has_dependency(deps, #[trigger] p[i], p[i + 1])
}

/// The first critical task found from `i` on that a task leads to is critical and
/// follows it under a dependency.
pub proof fn lemma_next_critical_linked(s: Seq<ScheduledTask>, deps: Seq<(Seq<char>, Seq<char>)>, cur: ScheduledTask, i: int)
    requires
        0 <= i <= s.len(),
    ensures
        next_critical_from(s, deps, cur, i) matches Some(j) ==> s[j].is_critical && has_dependency(deps, cur.task_id@, s[j].task_id@),
    decreases s.len() - i,
{
    if i < s.len() {
        lemma_next_critical_linked(s, deps, cur, i + 1);
    }
}

/// Following the chain from a critical task keeps the path linked.
pub proof fn lemma_chain_linked(s: Seq<ScheduledTask>, deps: Seq<(Seq<char>, Seq<char>)>, cur: int, path: Seq<Seq<char>>)
    requires
        0 <= cur < s.len(),
        s[cur].is_critical,
        linked_critical(s, deps, path),
        path.len() > 0 ==> has_dependency(deps, path.last(), s[cur].task_id@),
    ensures
        linked_critical(s, deps, chain(s, deps, cur, path)),
    decreases i64::MAX - s[cur].early_start,
{
    let p = path.push(s[cur].task_id@);
    assert forall|i: int| 0 <= i < p.len() implies exists|k: int| 0 <= k < s.len() && s[k].is_critical && s[k].task_id@ == #[trigger] p[i] by {
        if i < path.len() {
            assert(p[i] == path[i]);
        } else {
            assert(p[i] == s[cur].task_id@);
        }
    }
    assert forall|i: int| 0 <= i < p.len() - 1 implies has_dependency(deps, #[trigger] p[i], p[i + 1]) by {
        assert(p[i] == path[i]);
        if i < path.len() - 1 {
            assert(p[i + 1] == path[i + 1]);
        } else {
            assert(path.last() == path[i]);
        }
    }
    lemma_next_critical_linked(s, deps, s[cur], 0);
    lemma_next_critical_from(s, deps, s[cur], 0);
    match next_critical_from(s, deps, s[cur], 0) {
        None => {},
        Some(j) => {
            if 0 <= j < s.len() && s[j].early_start > s[cur].early_start {
                assert(p.last() == s[cur].task_id@);
                lemma_chain_linked(s, deps, j, p);
            }
        },
    }
}

/// The critical path the scheduler finds is made of critical tasks, each leading to
/// the next under a dependency.
pub proof fn lemma_schedule_path_linked(s: Seq<ScheduledTask>, deps: Seq<(Seq<char>, Seq<char>)>)
    ensures
        linked_critical(s, deps, schedule_path(s, deps)),
{
    match min_early_start(s) {
        None => {},
        Some(m) => {
            lemma_first_critical_at(s, m, 0);
            match first_critical_at(s, m, 0) {
                None => {},
                Some(i) => {
                    lemma_first_critical_found(s, m, 0);
                    lemma_chain_linked(s, deps, i, Seq::empty());
                },
            }
        },
    }
}

/// The task found as the first critical one at an early start is critical.
pub proof fn lemma_first_critical_found(s: Seq<ScheduledTask>, es: int, i: int)
    requires
        0 <= i <= s.len(),
    ensures
        first_critical_at(s, es, i) matches Some(j) ==> s[j].is_critical && s[j].early_start == es,
    decreases s.len() - i,
{
    if i < s.len() {
        lemma_first_critical_found(s, es, i + 1);
    }
}

/// In a schedule made by the scheduler, a task is critical exactly when it has no
/// total slack, and its total slack is its late start less its early start.
pub proof fn lemma_made_slack(r: ProjectSchedule, code: String, deps: Seq<TaskDependency>, late: Seq<ScheduledTask>, start: i64)
    requires
        schedule_made(r, code, deps, late, start),
        forall|i: int| 0 <= i < late.len() ==> schedule_time((#[trigger] late[i]).early_start as int)
            && schedule_time(late[i].late_start as int),
    ensures
        forall|i: int| 0 <= i < r.tasks@.len() ==> {
            &&& (#[trigger] r.tasks@[i]).is_critical <==> r.tasks@[i].total_slack == 0
            &&& r.tasks@[i].total_slack == r.tasks@[i].late_start - r.tasks@[i].early_start
        },
        linked_critical(r.tasks@, dep_views(deps), string_views(r.critical_path@)),
{
    assert forall|i: int| 0 <= i < r.tasks@.len() implies {
        &&& (#[trigger] r.tasks@[i]).is_critical <==> r.tasks@[i].total_slack == 0
        &&& r.tasks@[i].total_slack == r.tasks@[i].late_start - r.tasks@[i].early_start
    } by {
        assert(with_slack(late)[i].early_start == late[i].early_start);
    }
    lemma_schedule_path_linked(r.tasks@, dep_views(deps));
}

// ============================================================================
// RESOURCE CONFLICTS
// ============================================================================

/// Whether two tasks overlap in their early dates.
pub open spec fn overlap(a: ScheduledTask, b: ScheduledTask) -> bool {
    a.early_start < b.early_finish && b.early_start < a.early_finish
}

/// A conflict as plain values: the resource, the tasks, the period, the severity and
/// the suggestion.
pub type ConflictView = (Seq<char>, Seq<Seq<char>>, TimeRange, ConflictSeverity, Option<Seq<char>>);

/// The plain values of a conflict.
pub open spec fn conflict_view(c: ResourceConflict) -> ConflictView {
    (
        c.resource_id@,
        string_views(c.conflicting_tasks@),
        c.conflict_period,
        c.severity,
        match c.suggested_resolution {
            Some(x) => Some(x@),
            None => None,
        },
    )
}

/// Whether the tasks named at positions `i` and `j` are both in the schedule and
/// overlap.
pub open spec fn pair_clashes(ids: Seq<Seq<char>>, tasks: Seq<ScheduledTask>, i: int, j: int) -> bool {
    match (find_scheduled(tasks, ids[i]), find_scheduled(tasks, ids[j])) {
        (Some(a), Some(b)) => overlap(tasks[a], tasks[b]),
        _ => false,
    }
}

/// The conflict on a resource between the tasks named at positions `i` and `j`: they
/// clash over the time both run, which is of high severity.
pub open spec fn pair_conflict(rid: Seq<char>, ids: Seq<Seq<char>>, tasks: Seq<ScheduledTask>, i: int, j: int) -> ConflictView {
    let a = tasks[find_scheduled(tasks, ids[i])->0];
    let b = tasks[find_scheduled(tasks, ids[j])->0];
    (
        rid,
        seq![ids[i], ids[j]],
        TimeRange {
            start: if a.early_start > b.early_start { a.early_start } else { b.early_start },
            end: if a.early_finish < b.early_finish { a.early_finish } else { b.early_finish },
        },
        ConflictSeverity::High,
        Some("Reschedule one of the tasks"@),
    )
}

/// The conflicts between the task at position `i` and those from position `j` on.
pub open spec fn conflict_row(rid: Seq<char>, ids: Seq<Seq<char>>, tasks: Seq<ScheduledTask>, i: int, j: int) -> Seq<ConflictView>
    decreases ids.len() - j,
{
    if j < 0 || j >= ids.len() {
        Seq::empty()
    } else {
        let rest = conflict_row(rid, ids, tasks, i, j + 1);
        if pair_clashes(ids, tasks, i, j) { seq![pair_conflict(rid, ids, tasks, i, j)] + rest } else { rest }
    }
}

/// The conflicts on a resource between its tasks from position `i` on, pair by pair.
pub open spec fn conflicts_from(rid: Seq<char>, ids: Seq<Seq<char>>, tasks: Seq<ScheduledTask>, i: int) -> Seq<ConflictView>
    decreases ids.len() - i,
{
    if i < 0 || i >= ids.len() {
        Seq::empty()
    } else {
        conflict_row(rid, ids, tasks, i, i + 1) + conflicts_from(rid, ids, tasks, i + 1)
    }
}

/// The conflicts on every resource with more than one task, resource by resource.
pub open spec fn all_conflicts(assignments: Seq<(String, Vec<String>)>, tasks: Seq<ScheduledTask>) -> Seq<ConflictView>
    decreases assignments.len(),
{
    if assignments.len() == 0 {
        Seq::empty()
    } else {
        let rest = all_conflicts(assignments.drop_last(), tasks);
        let (rid, ids) = assignments.last();
        if ids@.len() > 1 { rest + conflicts_from(rid@, string_views(ids@), tasks, 0) } else { rest }
    }
}

fn tasks_overlap(task1: &ScheduledTask, task2: &ScheduledTask) -> (b: bool)
    ensures
        b == overlap(*task1, *task2),
{
    task1.early_start < task2.early_finish && task2.early_start < task1.early_finish
}

fn find_resource_conflicts(resource_id: &str, task_ids: &Vec<String>, tasks: &Vec<ScheduledTask>) -> (r: Vec<ResourceConflict>)
    ensures
        r@.map_values(|c: ResourceConflict| conflict_view(c)) == conflicts_from(resource_id@, string_views(task_ids@), tasks@, 0),
{
    proof {
        reveal_strlit("Reschedule one of the tasks");
    }
    let ghost ids = string_views(task_ids@);
    let ghost goal = conflicts_from(resource_id@, ids, tasks@, 0);
    let mut conflicts: Vec<ResourceConflict> = Vec::new();
    let mut i: usize = 0;
    while i < task_ids.len()
        invariant
            0 <= i <= task_ids@.len(),
            ids == string_views(task_ids@),
            goal == conflicts_from(resource_id@, ids, tasks@, 0),
            conflicts@.map_values(|c: ResourceConflict| conflict_view(c)) + conflicts_from(resource_id@, ids, tasks@, i as int) == goal,
        decreases task_ids.len() - i,
    {
        let mut j: usize = i + 1;
        let ghost base = conflicts@.map_values(|c: ResourceConflict| conflict_view(c));
        proof {
            assert(conflicts_from(resource_id@, ids, tasks@, i as int)
                == conflict_row(resource_id@, ids, tasks@, i as int, i as int + 1) + conflicts_from(resource_id@, ids, tasks@, i as int + 1));
        }
        while j < task_ids.len()
            invariant
                i < task_ids@.len(),
                i + 1 <= j <= task_ids@.len(),
                ids == string_views(task_ids@),
                goal == conflicts_from(resource_id@, ids, tasks@, 0),
                conflicts@.map_values(|c: ResourceConflict| conflict_view(c)) + conflict_row(resource_id@, ids, tasks@, i as int, j as int)
                    + conflicts_from(resource_id@, ids, tasks@, i as int + 1) == goal,
            decreases task_ids.len() - j,
        {
            let ghost before = conflicts@.map_values(|c: ResourceConflict| conflict_view(c));
            let first = find_task_position(tasks, task_ids[i].as_str());
            let second = find_task_position(tasks, task_ids[j].as_str());
            proof {
                assert(ids[i as int] == task_ids@[i as int]@);
                assert(ids[j as int] == task_ids@[j as int]@);
            }
            match (first, second) {
                (Some(a), Some(b)) => {
                    if tasks_overlap(&tasks[a], &tasks[b]) {
                        let t1 = &tasks[a];
                        let t2 = &tasks[b];
                        let mut pair: Vec<String> = Vec::new();
                        pair.push(task_ids[i].clone());
                        pair.push(task_ids[j].clone());
                        let conflict = ResourceConflict {
                            resource_id: String::from_str(resource_id),
                            conflicting_tasks: pair,
                            conflict_period: TimeRange {
                                start: if t1.early_start > t2.early_start { t1.early_start } else { t2.early_start },
                                end: if t1.early_finish < t2.early_finish { t1.early_finish } else { t2.early_finish },
                            },
                            severity: ConflictSeverity::High,
                            suggested_resolution: Some(String::from_str("Reschedule one of the tasks")),
                        };
                        proof {
                            assert(string_views(conflict.conflicting_tasks@) =~= seq![ids[i as int], ids[j as int]]);
                            assert(conflict_view(conflict) == pair_conflict(resource_id@, ids, tasks@, i as int, j as int));
                        }
                        conflicts.push(conflict);
                        proof {
                            assert(conflicts@.map_values(|c: ResourceConflict| conflict_view(c))
                                =~= before.push(pair_conflict(resource_id@, ids, tasks@, i as int, j as int)));
                            assert(before + conflict_row(resource_id@, ids, tasks@, i as int, j as int)
                                =~= before.push(pair_conflict(resource_id@, ids, tasks@, i as int, j as int))
                                + conflict_row(resource_id@, ids, tasks@, i as int, j as int + 1));
                        }
                    }
                },
                _ => {},
            }
            j = j + 1;
        }
        proof {
            let done = conflicts@.map_values(|c: ResourceConflict| conflict_view(c));
            assert(conflict_row(resource_id@, ids, tasks@, i as int, j as int) =~= Seq::<ConflictView>::empty());
            assert(done + Seq::<ConflictView>::empty() =~= done);
        }
        i = i + 1;
    }
    proof {
        let done = conflicts@.map_values(|c: ResourceConflict| conflict_view(c));
        assert(done + Seq::<ConflictView>::empty() =~= done);
    }
    conflicts
}

impl Scheduler {
    /// The resource a task is assigned to: none is known to the scheduler.
    fn get_task_resource(&self, task_id: &str) -> (r: Option<String>)
        ensures
            r is None,
    {
        None
    }

    /// Files each task under the resource it is assigned to; as no task has a known
    /// resource, the schedule stays as it is.
    fn assign_resources(&self, schedule: &mut ProjectSchedule)
        ensures
            *final(schedule) == *old(schedule),
    {
        let mut i: usize = 0;
        while i < schedule.tasks.len()
            invariant
                0 <= i <= schedule.tasks@.len(),
                *schedule == *old(schedule),
            decreases schedule.tasks.len() - i,
        {
            match self.get_task_resource(schedule.tasks[i].task_id.as_str()) {
                Some(resource_id) => {
                    let id = schedule.tasks[i].task_id.clone();
                    let mut k: usize = 0;
                    let mut filed = false;
                    while k < schedule.resource_assignments.len() && !filed
                        decreases schedule.resource_assignments.len() - k,
                    {
                        if str_eq(schedule.resource_assignments[k].0.as_str(), resource_id.as_str()) {
                            schedule.resource_assignments[k].1.push(id.clone());
                            filed = true;
                        }
                        k = k + 1;
                    }
                    if !filed {
                        let mut list: Vec<String> = Vec::new();
                        list.push(id);
                        schedule.resource_assignments.push((resource_id, list));
                    }
                },
                None => {},
            }
            i = i + 1;
        }
    }

    /// Adds, for each resource with more than one task, the conflicts between its tasks.
    fn detect_conflicts(&self, schedule: &mut ProjectSchedule)
        ensures
            final(schedule).conflicts@.map_values(|c: ResourceConflict| conflict_view(c))
                == old(schedule).conflicts@.map_values(|c: ResourceConflict| conflict_view(c))
                + all_conflicts(old(schedule).resource_assignments@, old(schedule).tasks@),
            final(schedule).tasks == old(schedule).tasks,
            final(schedule).resource_assignments == old(schedule).resource_assignments,
            final(schedule).project_id == old(schedule).project_id,
            final(schedule).critical_path == old(schedule).critical_path,
            final(schedule).total_duration == old(schedule).total_duration,
            final(schedule).start_date == old(schedule).start_date,
            final(schedule).end_date == old(schedule).end_date,
    {
        let ghost c0 = schedule.conflicts@.map_values(|c: ResourceConflict| conflict_view(c));
        let mut k: usize = 0;
        while k < schedule.resource_assignments.len()
            invariant
                0 <= k <= schedule.resource_assignments@.len(),
                schedule.tasks == old(schedule).tasks,
                schedule.resource_assignments == old(schedule).resource_assignments,
                schedule.project_id == old(schedule).project_id,
                schedule.critical_path == old(schedule).critical_path,
                schedule.total_duration == old(schedule).total_duration,
                schedule.start_date == old(schedule).start_date,
                schedule.end_date == old(schedule).end_date,
                c0 == old(schedule).conflicts@.map_values(|c: ResourceConflict| conflict_view(c)),
                schedule.conflicts@.map_values(|c: ResourceConflict| conflict_view(c))
                    == c0 + all_conflicts(schedule.resource_assignments@.take(k as int), schedule.tasks@),
            decreases schedule.resource_assignments.len() - k,
        {
            proof {
                assert(schedule.resource_assignments@.take(k as int + 1).drop_last() =~= schedule.resource_assignments@.take(k as int));
            }
            if schedule.resource_assignments[k].1.len() > 1 {
                let mut found = find_resource_conflicts(
                    schedule.resource_assignments[k].0.as_str(),
                    &schedule.resource_assignments[k].1,
                    &schedule.tasks,
                );
                let ghost before = schedule.conflicts@.map_values(|c: ResourceConflict| conflict_view(c));
                let ghost added = found@.map_values(|c: ResourceConflict| conflict_view(c));
                schedule.conflicts.append(&mut found);
                proof {
                    assert(schedule.conflicts@.map_values(|c: ResourceConflict| conflict_view(c)) =~= before + added);
                }
            }
            k = k + 1;
        }
        proof {
            assert(schedule.resource_assignments@.take(schedule.resource_assignments@.len() as int) =~= schedule.resource_assignments@);
        }
    }
}

} // verus!
