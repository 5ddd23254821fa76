//! Resolution of the resource conflicts of a schedule by a chain of strategies, with a
//! history of what was resolved. Instants are milliseconds since the Unix epoch and
//! spans are milliseconds.

use vstd::prelude::*;
use crate::errors::DomainError;
use crate::project_management::advanced_dependencies::now_millis;
use crate::project_management::calculation_cache_system::{string_views, strings_contain};
use crate::scheduling::critical_path::{num_hours, whole_hours};
use crate::scheduling::resource_leveler::HOUR_MILLIS;
use crate::scheduling::scheduler::{
    conflict_view, find_scheduled, find_task_position, ConflictSeverity, ProjectSchedule, ResourceConflict,
    ScheduledTask, DAY_MILLIS,
};
use crate::text::{copy_strings, decimal, i64_to_text, signed_decimal, str_eq, usize_to_text};

verus! {

/// How a conflict can be resolved.
#[derive(Debug, Clone, Copy, PartialEq, Eq, Structural)]
pub enum ResolutionStrategy {
    TimeShifting,
    ResourceReassignment,
    TaskBreakdown,
    DependencyAdjustment,
    ProjectRestructuring,
}

/// How a conflict was resolved.
#[derive(Debug, Clone, Copy, PartialEq, Eq, Hash, Structural)]
pub enum ResolutionMethod {
    TimeShifting,
    ResourceReassignment,
    TaskBreakdown,
    DependencyAdjustment,
    ProjectRestructuring,
    Failed,
}

/// The name of a value of `ResolutionMethod`.
pub open spec fn resolution_method_text(v: ResolutionMethod) -> Seq<char> {
    match v {
        ResolutionMethod::TimeShifting => "Time Shifting"@,
        ResolutionMethod::ResourceReassignment => "Resource Reassignment"@,
        ResolutionMethod::TaskBreakdown => "Task Breakdown"@,
        ResolutionMethod::DependencyAdjustment => "Dependency Adjustment"@,
        ResolutionMethod::ProjectRestructuring => "Project Restructuring"@,
        ResolutionMethod::Failed => "Failed"@,
    }
}

impl ResolutionMethod {
    /// The readable name.
    pub fn to_string(&self) -> (s: String)
        ensures
            s@ == resolution_method_text(*self),
    {
        let t = match self {
            ResolutionMethod::TimeShifting => "Time Shifting",
            ResolutionMethod::ResourceReassignment => "Resource Reassignment",
            ResolutionMethod::TaskBreakdown => "Task Breakdown",
            ResolutionMethod::DependencyAdjustment => "Dependency Adjustment",
            ResolutionMethod::ProjectRestructuring => "Project Restructuring",
            ResolutionMethod::Failed => "Failed",
        };
        String::from_str(t)
    }
}

/// A period with many conflicts.
#[derive(Debug, Clone, PartialEq)]
pub struct ConflictHotspot {
    pub period: String,
    pub conflict_count: usize,
    pub max_severity: ConflictSeverity,
    pub affected_resources: Vec<String>,
}

/// How urgent a recommendation is.
#[derive(Debug, Clone, Copy, PartialEq, Eq, Structural)]
pub enum RecommendationPriority {
    Low,
    Medium,
    High,
    Critical,
}

/// The name of a value of `RecommendationPriority`.
pub open spec fn recommendation_priority_text(v: RecommendationPriority) -> Seq<char> {
    match v {
        RecommendationPriority::Low => "Low"@,
        RecommendationPriority::Medium => "Medium"@,
        RecommendationPriority::High => "High"@,
        RecommendationPriority::Critical => "Critical"@,
    }
}

impl RecommendationPriority {
    /// The readable name.
    pub fn to_string(&self) -> (s: String)
        ensures
            s@ == recommendation_priority_text(*self),
    {
        let t = match self {
            RecommendationPriority::Low => "Low",
            RecommendationPriority::Medium => "Medium",
            RecommendationPriority::High => "High",
            RecommendationPriority::Critical => "Critical",
        };
        String::from_str(t)
    }
}

/// The outcome of resolving a conflict: the method, a description, the delay given to
/// a task, the tasks affected, the resource that took a task over, the subtasks a task
/// was broken into, and the delay of the project.
#[derive(Debug, PartialEq, Eq)]
pub struct ConflictResolution {
    pub method: ResolutionMethod,
    pub description: String,
    pub delay: i64,
    pub affected_tasks: Vec<String>,
    pub new_resource: Option<String>,
    pub subtasks: Option<Vec<String>>,
    pub project_delay: Option<i64>,
}

impl ConflictResolution {
    /// A resolution of a conflict on the resource, not made yet: it is marked failed.
    pub fn new(resource_id: String) -> (r: ConflictResolution)
        ensures
            r.method == ResolutionMethod::Failed,
            r.description@ == Seq::<char>::empty(),
            r.delay == 0,
            r.affected_tasks@.len() == 0,
            r.new_resource is None,
            r.subtasks is None,
            r.project_delay is None,
    {
        ConflictResolution {
            method: ResolutionMethod::Failed,
            description: String::new(),
            delay: 0,
            affected_tasks: Vec::new(),
            new_resource: None,
            subtasks: None,
            project_delay: None,
        }
    }
}

/// A resolution as plain values.
pub type ResolutionView = (
    ResolutionMethod,
    Seq<char>,
    int,
    Seq<Seq<char>>,
    Option<Seq<char>>,
    Option<Seq<Seq<char>>>,
    Option<int>,
);

/// The plain values of a resolution.
pub open spec fn resolution_view(r: ConflictResolution) -> ResolutionView {
    (
        r.method,
        r.description@,
        r.delay as int,
        string_views(r.affected_tasks@),
        match r.new_resource {
            Some(x) => Some(x@),
            None => None,
        },
        match r.subtasks {
            Some(v) => Some(string_views(v@)),
            None => None,
        },
        match r.project_delay {
            Some(d) => Some(d as int),
            None => None,
        },
    )
}

/// The assignments of tasks to resources, as plain values.
pub type AssignmentView = Seq<(Seq<char>, Seq<Seq<char>>)>;

/// The plain values of assignments of tasks to resources.
pub open spec fn assignment_view(a: Seq<(String, Vec<String>)>) -> AssignmentView {
    a.map_values(|p: (String, Vec<String>)| (p.0@, string_views(p.1@)))
}

/// What resolving changes: the tasks and the assignments.
pub type ResolveState = (Seq<ScheduledTask>, AssignmentView);

/// The first task among those named from position `i` on whose total slack is above
/// `max`, and above every one before it.
pub open spec fn most_slack_from(tasks: Seq<ScheduledTask>, ids: Seq<Seq<char>>, i: int, best: Option<Seq<char>>, max: int) -> Option<Seq<char>>
    decreases ids.len() - i,
{
    if i < 0 || i >= ids.len() {
        best
    } else {
        match find_scheduled(tasks, ids[i]) {
            Some(j) => if tasks[j].total_slack > max {
                most_slack_from(tasks, ids, i + 1, Some(ids[i]), tasks[j].total_slack as int)
            } else {
                most_slack_from(tasks, ids, i + 1, best, max)
            },
            None => most_slack_from(tasks, ids, i + 1, best, max),
        }
    }
}

/// The total slack of the first scheduled task with the identifier, if there is one.
pub open spec fn slack_of(tasks: Seq<ScheduledTask>, id: Seq<char>) -> Option<int> {
    match find_scheduled(tasks, id) {
        Some(j) => Some(tasks[j].total_slack as int),
        None => None,
    }
}

/// Whether the task with the identifier, where it is scheduled, has at most `v` of slack.
pub open spec fn slack_at_most(tasks: Seq<ScheduledTask>, id: Seq<char>, v: int) -> bool {
    match slack_of(tasks, id) {
        Some(w) => w <= v,
        None => true,
    }
}

proof fn lemma_most_slack_from(tasks: Seq<ScheduledTask>, ids: Seq<Seq<char>>, i: int, best: Option<Seq<char>>, max: int)
    requires
        0 <= i <= ids.len(),
        max >= 0,
        best is None ==> max == 0,
        best matches Some(x) ==> ids.contains(x) && slack_of(tasks, x) == Some(max) && max > 0,
        forall|k: int| 0 <= k < i ==> #[trigger] slack_at_most(tasks, ids[k], max),
    ensures
        most_slack_from(tasks, ids, i, best, max) matches Some(x) ==> {
            &&& ids.contains(x)
            &&& slack_of(tasks, x) matches Some(v) && v > 0
                && forall|k: int| 0 <= k < ids.len() ==> #[trigger] slack_at_most(tasks, ids[k], v)
        },
        most_slack_from(tasks, ids, i, best, max) is None
            ==> forall|k: int| 0 <= k < ids.len() ==> #[trigger] slack_at_most(tasks, ids[k], 0),
    decreases ids.len() - i,
{
    if i < ids.len() {
        match find_scheduled(tasks, ids[i]) {
            Some(j) => {
                if tasks[j].total_slack > max {
                    let m2 = tasks[j].total_slack as int;
                    assert(ids.contains(ids[i]));
                    assert forall|k: int| 0 <= k < i + 1 implies #[trigger] slack_at_most(tasks, ids[k], m2) by {
                        if k < i {
                            assert(slack_at_most(tasks, ids[k], max));
                        }
                    }
                    lemma_most_slack_from(tasks, ids, i + 1, Some(ids[i]), m2);
                } else {
                    assert forall|k: int| 0 <= k < i + 1 implies #[trigger] slack_at_most(tasks, ids[k], max) by {
                    }
                    lemma_most_slack_from(tasks, ids, i + 1, best, max);
                }
            },
            None => {
                assert forall|k: int| 0 <= k < i + 1 implies #[trigger] slack_at_most(tasks, ids[k], max) by {
                }
                lemma_most_slack_from(tasks, ids, i + 1, best, max);
            },
        }
    }
}

/// Law: the task that time shifting moves is one of the conflict's tasks that is
/// scheduled with positive total slack, and no scheduled task of the conflict has
/// more slack; there is none exactly when no scheduled task of the conflict has any
/// slack.
pub proof fn lemma_most_slack_is_greatest(tasks: Seq<ScheduledTask>, ids: Seq<Seq<char>>)
    ensures
        most_slack_from(tasks, ids, 0, None, 0) matches Some(x) ==> {
            &&& ids.contains(x)
            &&& slack_of(tasks, x) matches Some(v) && v > 0
                && forall|k: int| 0 <= k < ids.len() ==> #[trigger] slack_at_most(tasks, ids[k], v)
        },
        most_slack_from(tasks, ids, 0, None, 0) is None
            <==> forall|k: int| 0 <= k < ids.len() ==> #[trigger] slack_at_most(tasks, ids[k], 0),
{
    lemma_most_slack_from(tasks, ids, 0, None, 0);
    match most_slack_from(tasks, ids, 0, None, 0) {
        Some(x) => {
            if forall|k: int| 0 <= k < ids.len() ==> #[trigger] slack_at_most(tasks, ids[k], 0) {
                let k = choose|k: int| 0 <= k < ids.len() && ids[k] == x;
                assert(slack_at_most(tasks, ids[k], 0));
            }
        },
        None => {},
    }
}

/// The first task among those named from position `i` on whose duration is above
/// `max`, and above every one before it.
pub open spec fn longest_from(tasks: Seq<ScheduledTask>, ids: Seq<Seq<char>>, i: int, best: Option<Seq<char>>, max: int) -> Option<Seq<char>>
    decreases ids.len() - i,
{
    if i < 0 || i >= ids.len() {
        best
    } else {
        match find_scheduled(tasks, ids[i]) {
            Some(j) => if tasks[j].duration > max {
                longest_from(tasks, ids, i + 1, Some(ids[i]), tasks[j].duration as int)
            } else {
                longest_from(tasks, ids, i + 1, best, max)
            },
            None => longest_from(tasks, ids, i + 1, best, max),
        }
    }
}

/// The identifiers, each once, in the order they first come.
pub open spec fn first_occurrences(ids: Seq<Seq<char>>) -> Seq<Seq<char>>
    decreases ids.len(),
{
    if ids.len() == 0 {
        Seq::empty()
    } else {
        let r = first_occurrences(ids.drop_last());
        if r.contains(ids.last()) { r } else { r.push(ids.last()) }
    }
}

/// The assignments without the task, under every resource.
pub open spec fn without_task(a: AssignmentView, id: Seq<char>) -> AssignmentView {
    a.map_values(|p: (Seq<char>, Seq<Seq<char>>)| (p.0, p.1.filter(|x: Seq<char>| x != id)))
}

/// The position of the first list of the resource.
pub open spec fn resource_position(a: AssignmentView, key: Seq<char>, i: int) -> Option<int>
    decreases a.len() - i,
{
    if i < 0 || i >= a.len() {
        None
    } else if a[i].0 == key {
        Some(i)
    } else {
        resource_position(a, key, i + 1)
    }
}

/// The assignments with the task added at the end of the resource's list, made where
/// the resource has none.
pub open spec fn filed_under(a: AssignmentView, key: Seq<char>, id: Seq<char>) -> AssignmentView {
    match resource_position(a, key, 0) {
        Some(k) => a.update(k, (a[k].0, a[k].1.push(id))),
        None => a.push((key, seq![id])),
    }
}

/// The result of one strategy on a conflict: the new state and the resolution, or
/// nothing where the strategy does not apply.
pub open spec fn apply_strategy(st: ResolveState, strategy: ResolutionStrategy, c: ResourceConflict) -> (ResolveState, Option<ResolutionView>) {
    let tasks = st.0;
    let ids = string_views(c.conflicting_tasks@);
    match strategy {
        ResolutionStrategy::TimeShifting => match most_slack_from(tasks, ids, 0, None, 0) {
            None => (st, None),
            Some(b) => match find_scheduled(tasks, b) {
                None => (st, None),
                Some(i) => {
                    let t = tasks[i];
                    let needed = c.conflict_period.end - c.conflict_period.start + HOUR_MILLIS;
                    let shift = if needed < t.total_slack { needed } else { t.total_slack as int };
                    let t2 = ScheduledTask {
                        early_start: (t.early_start + shift) as i64,
                        early_finish: (t.early_finish + shift) as i64,
                        late_start: (t.late_start + shift) as i64,
                        late_finish: (t.late_finish + shift) as i64,
                        ..t
                    };
                    ((tasks.update(i, t2), st.1), Some((
                        ResolutionMethod::TimeShifting,
                        "Shifted task "@ + b + " by "@ + signed_decimal(whole_hours(shift)) + " hours"@,
                        shift,
                        seq![b],
                        None,
                        None,
                        None,
                    )))
                },
            },
        },
        ResolutionStrategy::ResourceReassignment => if ids.len() == 0 {
            (st, None)
        } else {
            let b = ids[0];
            let alt = c.resource_id@ + "-alt"@;
            ((tasks, filed_under(without_task(st.1, b), alt, b)), Some((
                ResolutionMethod::ResourceReassignment,
                "Reassigned task "@ + b + " from "@ + c.resource_id@ + " to "@ + alt,
                0,
                seq![b],
                Some(alt),
                None,
                None,
            )))
        },
        ResolutionStrategy::TaskBreakdown => match longest_from(tasks, ids, 0, None, 0) {
            None => (st, None),
            Some(b) => (st, Some((
                ResolutionMethod::TaskBreakdown,
                "Broke down task "@ + b + " into 2 subtasks"@,
                0,
                seq![b],
                None,
                Some(seq![b + "-subtask-1"@, b + "-subtask-2"@]),
                None,
            ))),
        },
        ResolutionStrategy::DependencyAdjustment => (st, Some((
            ResolutionMethod::DependencyAdjustment,
            "Adjusted "@ + decimal(first_occurrences(ids).len()) + " dependencies"@,
            0,
            first_occurrences(ids),
            None,
            None,
            None,
        ))),
        ResolutionStrategy::ProjectRestructuring => (st, Some((
            ResolutionMethod::ProjectRestructuring,
            "Restructured project to resolve critical conflict"@,
            0,
            ids,
            None,
            None,
            Some(DAY_MILLIS as int),
        ))),
    }
}

/// Whether one strategy on a conflict stays within `i64`.
pub open spec fn strategy_fits(st: ResolveState, strategy: ResolutionStrategy, c: ResourceConflict) -> bool {
    let tasks = st.0;
    let ids = string_views(c.conflicting_tasks@);
    match strategy {
        ResolutionStrategy::TimeShifting => match most_slack_from(tasks, ids, 0, None, 0) {
            None => true,
            Some(b) => match find_scheduled(tasks, b) {
                None => true,
                Some(i) => {
                    let t = tasks[i];
                    let needed = c.conflict_period.end - c.conflict_period.start + HOUR_MILLIS;
                    let shift = if needed < t.total_slack { needed } else { t.total_slack as int };
                    &&& i64::MIN <= c.conflict_period.end - c.conflict_period.start <= i64::MAX
                    &&& i64::MIN <= needed <= i64::MAX
                    &&& i64::MIN <= t.early_start + shift <= i64::MAX
                    &&& i64::MIN <= t.early_finish + shift <= i64::MAX
                    &&& i64::MIN <= t.late_start + shift <= i64::MAX
                    &&& i64::MIN <= t.late_finish + shift <= i64::MAX
                },
            },
        },
        _ => true,
    }
}

/// Trying the strategies from position `k` on, in order, until one applies.
pub open spec fn try_strategies(st: ResolveState, strategies: Seq<ResolutionStrategy>, k: int, c: ResourceConflict) -> (ResolveState, Option<ResolutionView>)
    decreases strategies.len() - k,
{
    if k < 0 || k >= strategies.len() {
        (st, None)
    } else {
        let (st2, o) = apply_strategy(st, strategies[k], c);
        match o {
            Some(v) => (st2, Some(v)),
            None => try_strategies(st, strategies, k + 1, c),
        }
    }
}

/// Whether trying the strategies from position `k` on stays within `i64`.
pub open spec fn strategies_fit(st: ResolveState, strategies: Seq<ResolutionStrategy>, k: int, c: ResourceConflict) -> bool
    decreases strategies.len() - k,
{
    if k < 0 || k >= strategies.len() {
        true
    } else {
        &&& strategy_fits(st, strategies[k], c)
        &&& (apply_strategy(st, strategies[k], c).1 is None ==> strategies_fit(st, strategies, k + 1, c))
    }
}

/// The conflicts most severe first: the critical ones, then the high, the medium and
/// the low ones, each kind in its order.
pub open spec fn by_severity(cs: Seq<ResourceConflict>) -> Seq<ResourceConflict> {
    cs.filter(|c: ResourceConflict| c.severity == ConflictSeverity::Critical)
        + cs.filter(|c: ResourceConflict| c.severity == ConflictSeverity::High)
        + cs.filter(|c: ResourceConflict| c.severity == ConflictSeverity::Medium)
        + cs.filter(|c: ResourceConflict| c.severity == ConflictSeverity::Low)
}

/// Resolving the conflicts in order: the state after them and the outcome of each.
pub open spec fn resolve_run(st: ResolveState, strategies: Seq<ResolutionStrategy>, cs: Seq<ResourceConflict>) -> (ResolveState, Seq<Option<ResolutionView>>)
    decreases cs.len(),
{
    if cs.len() == 0 {
        (st, Seq::empty())
    } else {
        let (st1, outs) = resolve_run(st, strategies, cs.drop_last());
        let (st2, o) = try_strategies(st1, strategies, 0, cs.last());
        (st2, outs.push(o))
    }
}

/// Whether resolving the conflicts in order stays within `i64` at every step.
pub open spec fn resolve_fits(st: ResolveState, strategies: Seq<ResolutionStrategy>, cs: Seq<ResourceConflict>) -> bool {
    forall|i: int| 0 <= i < cs.len() ==> strategies_fit(#[trigger] resolve_run(st, strategies, cs.take(i)).0, strategies, 0, cs[i])
}

impl Clone for ConflictResolution {
    fn clone(&self) -> (r: Self)
        ensures
            resolution_view(r) == resolution_view(*self),
    {
        ConflictResolution {
            method: self.method,
            description: self.description.clone(),
            delay: self.delay,
            affected_tasks: copy_strings(&self.affected_tasks),
            new_resource: match &self.new_resource {
                Some(x) => Some(x.clone()),
                None => None,
            },
            subtasks: match &self.subtasks {
                Some(v) => Some(copy_strings(v)),
                None => None,
            },
            project_delay: self.project_delay,
        }
    }
}

/// A conflict that no strategy resolved, with the message of the error and the
/// strategies reported as tried.
#[derive(Debug, Clone, PartialEq, Eq)]
pub struct FailedConflictResolution {
    pub conflict: ResourceConflict,
    pub error: String,
    pub attempted_strategies: Vec<ResolutionStrategy>,
}

/// The outcome of resolving every conflict: the counts, the resolutions and the
/// failures. The share of resolved conflicts is `resolved_conflicts / total_conflicts`,
/// one where there are none.
#[derive(Debug, Clone, PartialEq, Eq)]
pub struct ConflictResolutionReport {
    pub total_conflicts: usize,
    pub resolved_conflicts: usize,
    pub failed_conflicts: usize,
    pub successful_resolutions: Vec<ConflictResolution>,
    pub failed_resolutions: Vec<FailedConflictResolution>,
}

impl ConflictResolutionReport {
    /// A report with nothing in it.
    pub fn new() -> (r: ConflictResolutionReport)
        ensures
            r.total_conflicts == 0,
            r.resolved_conflicts == 0,
            r.failed_conflicts == 0,
            r.successful_resolutions@.len() == 0,
            r.failed_resolutions@.len() == 0,
    {
        ConflictResolutionReport {
            total_conflicts: 0,
            resolved_conflicts: 0,
            failed_conflicts: 0,
            successful_resolutions: Vec::new(),
            failed_resolutions: Vec::new(),
        }
    }
}

impl Default for ConflictResolutionReport {
    fn default() -> (r: Self)
        ensures
            r.total_conflicts == 0,
            r.resolved_conflicts == 0,
            r.failed_conflicts == 0,
            r.successful_resolutions@.len() == 0,
            r.failed_resolutions@.len() == 0,
    {
        Self::new()
    }
}

/// A change to the dependencies of a task, with a lag in milliseconds.
#[derive(Debug, Clone, PartialEq, Eq)]
pub struct DependencyAdjustment {
    pub new_predecessor: Option<String>,
    pub new_successor: Option<String>,
    pub lag_time: i64,
}

/// A plan to restructure the project: the tasks it affects and the delay of the project.
#[derive(Debug, Clone, PartialEq, Eq)]
pub struct RestructuringPlan {
    pub affected_tasks: Vec<String>,
    pub project_delay: i64,
    pub new_dependencies: Vec<String>,
    pub resource_changes: Vec<String>,
}

/// A resolved conflict in the history: the conflict, its resolution, when it was
/// resolved, whether it succeeded, and how long resolving took.
#[derive(Debug, Clone, PartialEq, Eq)]
pub struct ConflictResolutionRecord {
    pub conflict: ResourceConflict,
    pub resolution: ConflictResolution,
    pub timestamp: i64,
    pub success: bool,
    pub resolution_time: i64,
}

/// The strategies a resolver tries, in order.
pub open spec fn default_strategies() -> Seq<ResolutionStrategy> {
    seq![
        ResolutionStrategy::TimeShifting,
        ResolutionStrategy::ResourceReassignment,
        ResolutionStrategy::TaskBreakdown,
        ResolutionStrategy::DependencyAdjustment,
        ResolutionStrategy::ProjectRestructuring,
    ]
}

/// A resolver of the conflicts of a schedule, with its strategies and its history.
#[derive(Debug)]
pub struct ConflictResolver {
    pub schedule: ProjectSchedule,
    pub resolution_strategies: Vec<ResolutionStrategy>,
    pub conflict_history: Vec<ConflictResolutionRecord>,
}

/// The state of a resolver that resolving changes.
pub open spec fn resolve_state(r: ConflictResolver) -> ResolveState {
    (r.schedule.tasks@, assignment_view(r.schedule.resource_assignments@))
}

/// Whether only the tasks and the assignments may differ between two schedules.
pub open spec fn same_but_plan(a: ProjectSchedule, b: ProjectSchedule) -> bool {
    &&& a.project_id == b.project_id
    &&& a.critical_path == b.critical_path
    &&& a.total_duration == b.total_duration
    &&& a.start_date == b.start_date
    &&& a.end_date == b.end_date
    &&& a.conflicts == b.conflicts
}

/// What one strategy does to a resolver and hands back.
pub open spec fn applied(before: ConflictResolver, after: ConflictResolver, strategy: ResolutionStrategy, c: ResourceConflict, r: Result<ConflictResolution, DomainError>) -> bool {
    let (st, o) = apply_strategy(resolve_state(before), strategy, c);
    &&& resolve_state(after) == st
    &&& same_but_plan(after.schedule, before.schedule)
    &&& after.resolution_strategies == before.resolution_strategies
    &&& after.conflict_history == before.conflict_history
    &&& match o {
        Some(v) => r matches Ok(res) && resolution_view(res) == v,
        None => r is Err,
    }
}

impl ConflictResolver {
    /// A resolver of the schedule that tries time shifting, resource reassignment,
    /// task breakdown, dependency adjustment and project restructuring, in that order.
    pub fn new(schedule: ProjectSchedule) -> (r: ConflictResolver)
        ensures
            r.schedule == schedule,
            r.resolution_strategies@ == default_strategies(),
            r.conflict_history@.len() == 0,
    {
        let mut strategies: Vec<ResolutionStrategy> = Vec::new();
        strategies.push(ResolutionStrategy::TimeShifting);
        strategies.push(ResolutionStrategy::ResourceReassignment);
        strategies.push(ResolutionStrategy::TaskBreakdown);
        strategies.push(ResolutionStrategy::DependencyAdjustment);
        strategies.push(ResolutionStrategy::ProjectRestructuring);
        assert(strategies@ =~= default_strategies());
        ConflictResolver { schedule, resolution_strategies: strategies, conflict_history: Vec::new() }
    }

    fn find_task_with_most_slack(&self, task_ids: &Vec<String>) -> (r: Result<String, DomainError>)
        ensures
            match most_slack_from(self.schedule.tasks@, string_views(task_ids@), 0, None, 0) {
                Some(b) => r matches Ok(x) && x@ == b,
                None => r is Err,
            },
    {
        let ghost ids = string_views(task_ids@);
        let ghost tasks = self.schedule.tasks@;
        let mut best: Option<usize> = None;
        let mut max_slack: i64 = 0;
        let mut i: usize = 0;
        while i < task_ids.len()
            invariant
                0 <= i <= task_ids@.len(),
                ids == string_views(task_ids@),
                tasks == self.schedule.tasks@,
                best matches Some(b) ==> b < i,
                most_slack_from(tasks, ids, 0, None, 0) == most_slack_from(tasks, ids, i as int, match best {
                    Some(b) => Some(ids[b as int]),
                    None => None,
                }, max_slack as int),
            decreases task_ids.len() - i,
        {
            proof {
                assert(ids[i as int] == task_ids@[i as int]@);
            }
            match self.schedule.get_task(task_ids[i].as_str()) {
                Some(t) => {
                    if t.total_slack > max_slack {
                        max_slack = t.total_slack;
                        best = Some(i);
                    }
                },
                None => {},
            }
            i = i + 1;
        }
        match best {
            Some(b) => {
                assert(ids[b as int] == task_ids@[b as int]@);
                Ok(task_ids[b].clone())
            },
            None => Err(DomainError::validation("task_selection", "No suitable task found for time shifting")),
        }
    }

    fn calculate_optimal_shift(&self, conflict: &ResourceConflict, task_id: &str) -> (r: Result<i64, DomainError>)
        requires
            find_scheduled(self.schedule.tasks@, task_id@) is Some ==> {
                &&& i64::MIN <= conflict.conflict_period.end - conflict.conflict_period.start <= i64::MAX
                &&& i64::MIN <= conflict.conflict_period.end - conflict.conflict_period.start + HOUR_MILLIS <= i64::MAX
            },
        ensures
            match find_scheduled(self.schedule.tasks@, task_id@) {
                Some(i) => r matches Ok(shift) && shift == ({
                    let needed = conflict.conflict_period.end - conflict.conflict_period.start + HOUR_MILLIS;
                    if needed < self.schedule.tasks@[i].total_slack { needed } else { self.schedule.tasks@[i].total_slack as int }
                }),
                None => r is Err,
            },
    {
        let task = match self.schedule.get_task(task_id) {
            Some(t) => t,
            None => {
                return Err(DomainError::EntityNotFound {
                    entity_type: String::from_str("Task"),
                    identifier: String::from_str(task_id),
                });
            },
        };
        let conflict_duration = conflict.conflict_period.end - conflict.conflict_period.start;
        let shift_needed = conflict_duration + HOUR_MILLIS;
        let max_shift = task.total_slack;
        Ok(if shift_needed < max_shift { shift_needed } else { max_shift })
    }

    fn shift_task(&mut self, task_id: &str, shift: i64) -> (r: Result<(), DomainError>)
        requires
            match find_scheduled(old(self).schedule.tasks@, task_id@) {
                Some(i) => {
                    let t = old(self).schedule.tasks@[i];
                    &&& i64::MIN <= t.early_start + shift <= i64::MAX
                    &&& i64::MIN <= t.early_finish + shift <= i64::MAX
                    &&& i64::MIN <= t.late_start + shift <= i64::MAX
                    &&& i64::MIN <= t.late_finish + shift <= i64::MAX
                },
                None => true,
            },
        ensures
            r is Ok,
            final(self).schedule.tasks@ == match find_scheduled(old(self).schedule.tasks@, task_id@) {
                Some(i) => {
                    let t = old(self).schedule.tasks@[i];
                    old(self).schedule.tasks@.update(i, ScheduledTask {
                        early_start: (t.early_start + shift) as i64,
                        early_finish: (t.early_finish + shift) as i64,
                        late_start: (t.late_start + shift) as i64,
                        late_finish: (t.late_finish + shift) as i64,
                        ..t
                    })
                },
                None => old(self).schedule.tasks@,
            },
            final(self).schedule.resource_assignments == old(self).schedule.resource_assignments,
            same_but_plan(final(self).schedule, old(self).schedule),
            final(self).resolution_strategies == old(self).resolution_strategies,
            final(self).conflict_history == old(self).conflict_history,
    {
        match find_task_position(&self.schedule.tasks, task_id) {
            Some(i) => {
                let ghost t0 = self.schedule.tasks@;
                self.schedule.tasks[i].early_start = self.schedule.tasks[i].early_start + shift;
                self.schedule.tasks[i].early_finish = self.schedule.tasks[i].early_finish + shift;
                self.schedule.tasks[i].late_start = self.schedule.tasks[i].late_start + shift;
                self.schedule.tasks[i].late_finish = self.schedule.tasks[i].late_finish + shift;
                proof {
                    let t = t0[i as int];
                    assert(self.schedule.tasks@ =~= t0.update(i as int, ScheduledTask {
                        early_start: (t.early_start + shift) as i64,
                        early_finish: (t.early_finish + shift) as i64,
                        late_start: (t.late_start + shift) as i64,
                        late_finish: (t.late_finish + shift) as i64,
                        ..t
                    }));
                }
            },
            None => {},
        }
        Ok(())
    }

    fn find_alternative_resource(&self, current_resource_id: &str) -> (r: Result<String, DomainError>)
        ensures
            r matches Ok(x) && x@ == current_resource_id@ + "-alt"@,
    {
        Ok(String::from_str(current_resource_id).concat("-alt"))
    }

    fn has_dependency(&self, predecessor_id: &str, successor_id: &str) -> (b: bool)
        ensures
            !b,
    {
        false
    }

    fn count_task_dependencies(&self, task_id: &str) -> (n: usize)
        ensures
            n == 0,
    {
        let mut n: usize = 0;
        let mut i: usize = 0;
        while i < self.schedule.tasks.len()
            invariant
                0 <= i <= self.schedule.tasks@.len(),
                n == 0,
            decreases self.schedule.tasks.len() - i,
        {
            if self.has_dependency(task_id, self.schedule.tasks[i].task_id.as_str()) {
                n = n + 1;
            }
            i = i + 1;
        }
        n
    }

    fn find_best_task_for_reassignment(&self, task_ids: &Vec<String>) -> (r: Result<String, DomainError>)
        ensures
            task_ids@.len() > 0 ==> (r matches Ok(x) && x@ == task_ids@[0]@),
            task_ids@.len() == 0 ==> r is Err,
    {
        let mut best: Option<usize> = None;
        let mut min_dependencies: usize = usize::MAX;
        let mut i: usize = 0;
        while i < task_ids.len()
            invariant
                0 <= i <= task_ids@.len(),
                i > 0 ==> best == Some(0usize) && min_dependencies == 0,
                i == 0 ==> best is None && min_dependencies == usize::MAX,
            decreases task_ids.len() - i,
        {
            let count = self.count_task_dependencies(task_ids[i].as_str());
            if count < min_dependencies {
                min_dependencies = count;
                best = Some(i);
            }
            i = i + 1;
        }
        match best {
            Some(b) => Ok(task_ids[b].clone()),
            None => Err(DomainError::validation("task_selection", "No suitable task found for reassignment")),
        }
    }
}

fn strings_without(v: &Vec<String>, id: &str) -> (r: Vec<String>)
    ensures
        string_views(r@) == string_views(v@).filter(|x: Seq<char>| x != id@),
{
    let ghost all = string_views(v@);
    let mut r: Vec<String> = Vec::new();
    let mut i: usize = 0;
    while i < v.len()
        invariant
            0 <= i <= v@.len(),
            all == string_views(v@),
            string_views(r@) == all.take(i as int).filter(|x: Seq<char>| x != id@),
        decreases v.len() - i,
    {
        proof {
            let before = all.take(i as int);
            assert(all.take(i as int + 1) =~= before.push(all[i as int]));
            reveal(Seq::filter);
            assert(before.push(all[i as int]).drop_last() =~= before);
        }
        if !str_eq(v[i].as_str(), id) {
            let ghost b = string_views(r@);
            r.push(v[i].clone());
            assert(string_views(r@) =~= b.push(all[i as int]));
        }
        i = i + 1;
    }
    proof {
        assert(all.take(all.len() as int) =~= all);
    }
    r
}

/// The first position from `i` on of the resource, where it has a list.
pub proof fn lemma_resource_position(a: AssignmentView, key: Seq<char>, i: int)
    requires
        0 <= i <= a.len(),
    ensures
        resource_position(a, key, i) matches Some(k) ==> i <= k < a.len() && a[k].0 == key,
    decreases a.len() - i,
{
    if i < a.len() {
        lemma_resource_position(a, key, i + 1);
    }
}

impl ConflictResolver {
    fn reassign_task_to_resource(&mut self, task_id: &str, new_resource_id: &str) -> (r: Result<(), DomainError>)
        ensures
            r is Ok,
            assignment_view(final(self).schedule.resource_assignments@)
                == filed_under(without_task(assignment_view(old(self).schedule.resource_assignments@), task_id@), new_resource_id@, task_id@),
            final(self).schedule.tasks == old(self).schedule.tasks,
            same_but_plan(final(self).schedule, old(self).schedule),
            final(self).resolution_strategies == old(self).resolution_strategies,
            final(self).conflict_history == old(self).conflict_history,
    {
        let ghost a0 = assignment_view(self.schedule.resource_assignments@);
        let ghost goal = without_task(a0, task_id@);
        let mut k: usize = 0;
        while k < self.schedule.resource_assignments.len()
            invariant
                0 <= k <= self.schedule.resource_assignments@.len(),
                self.schedule.resource_assignments@.len() == a0.len(),
                a0 == assignment_view(old(self).schedule.resource_assignments@),
                goal == without_task(a0, task_id@),
                forall|j: int| 0 <= j < k ==> #[trigger] assignment_view(self.schedule.resource_assignments@)[j] == goal[j],
                forall|j: int| k <= j < a0.len() ==> #[trigger] assignment_view(self.schedule.resource_assignments@)[j] == a0[j],
                self.schedule.tasks == old(self).schedule.tasks,
                same_but_plan(self.schedule, old(self).schedule),
                self.resolution_strategies == old(self).resolution_strategies,
                self.conflict_history == old(self).conflict_history,
            decreases self.schedule.resource_assignments.len() - k,
        {
            let ghost before = self.schedule.resource_assignments@;
            let kept = strings_without(&self.schedule.resource_assignments[k].1, task_id);
            self.schedule.resource_assignments[k].1 = kept;
            proof {
                assert forall|j: int| 0 <= j < a0.len() && j != k implies #[trigger] assignment_view(self.schedule.resource_assignments@)[j] == assignment_view(before)[j] by {
                    assert(self.schedule.resource_assignments@[j] == before[j]);
                }
                assert(assignment_view(before)[k as int] == a0[k as int]);
                assert(assignment_view(self.schedule.resource_assignments@)[k as int] == goal[k as int]);
            }
            k = k + 1;
        }
        proof {
            assert(assignment_view(self.schedule.resource_assignments@) =~= goal);
            lemma_resource_position(goal, new_resource_id@, 0);
        }
        let mut p: usize = 0;
        let mut found: Option<usize> = None;
        while p < self.schedule.resource_assignments.len()
            invariant_except_break
                found is None,
            invariant
                0 <= p <= self.schedule.resource_assignments@.len(),
                assignment_view(self.schedule.resource_assignments@) == goal,
                resource_position(goal, new_resource_id@, 0) == resource_position(goal, new_resource_id@, p as int),
            ensures
                assignment_view(self.schedule.resource_assignments@) == goal,
                match resource_position(goal, new_resource_id@, 0) {
                    Some(q) => found matches Some(f) && f == q && f < self.schedule.resource_assignments@.len(),
                    None => found is None,
                },
            decreases self.schedule.resource_assignments.len() - p,
        {
            assert(goal[p as int].0 == self.schedule.resource_assignments@[p as int].0@);
            if str_eq(self.schedule.resource_assignments[p].0.as_str(), new_resource_id) {
                found = Some(p);
                break;
            }
            p = p + 1;
        }
        let ghost g = assignment_view(self.schedule.resource_assignments@);
        match found {
            Some(q) => {
                let ghost before = self.schedule.resource_assignments@;
                self.schedule.resource_assignments[q].1.push(String::from_str(task_id));
                proof {
                    assert forall|j: int| 0 <= j < g.len() implies #[trigger] assignment_view(self.schedule.resource_assignments@)[j]
                        == g.update(q as int, (g[q as int].0, g[q as int].1.push(task_id@)))[j] by {
                        if j != q {
                            assert(self.schedule.resource_assignments@[j] == before[j]);
                        } else {
                            assert(string_views(self.schedule.resource_assignments@[j].1@) =~= string_views(before[j].1@).push(task_id@));
                        }
                    }
                    assert(assignment_view(self.schedule.resource_assignments@) =~= g.update(q as int, (g[q as int].0, g[q as int].1.push(task_id@))));
                }
            },
            None => {
                let mut list: Vec<String> = Vec::new();
                list.push(String::from_str(task_id));
                self.schedule.resource_assignments.push((String::from_str(new_resource_id), list));
                proof {
                    assert(string_views(list@) =~= seq![task_id@]);
                    assert(assignment_view(self.schedule.resource_assignments@) =~= g.push((new_resource_id@, seq![task_id@])));
                }
            },
        }
        Ok(())
    }

    fn can_break_down_task(&self, task_id: &str) -> (b: bool)
        ensures
            b,
    {
        true
    }

    fn find_largest_breakable_task(&self, task_ids: &Vec<String>) -> (r: Result<String, DomainError>)
        ensures
            match longest_from(self.schedule.tasks@, string_views(task_ids@), 0, None, 0) {
                Some(b) => r matches Ok(x) && x@ == b,
                None => r is Err,
            },
    {
        let ghost ids = string_views(task_ids@);
        let ghost tasks = self.schedule.tasks@;
        let mut best: Option<usize> = None;
        let mut max_duration: i64 = 0;
        let mut i: usize = 0;
        while i < task_ids.len()
            invariant
                0 <= i <= task_ids@.len(),
                ids == string_views(task_ids@),
                tasks == self.schedule.tasks@,
                best matches Some(b) ==> b < i,
                longest_from(tasks, ids, 0, None, 0) == longest_from(tasks, ids, i as int, match best {
                    Some(b) => Some(ids[b as int]),
                    None => None,
                }, max_duration as int),
            decreases task_ids.len() - i,
        {
            proof {
                assert(ids[i as int] == task_ids@[i as int]@);
            }
            match self.schedule.get_task(task_ids[i].as_str()) {
                Some(t) => {
                    if t.duration > max_duration && self.can_break_down_task(task_ids[i].as_str()) {
                        max_duration = t.duration;
                        best = Some(i);
                    }
                },
                None => {},
            }
            i = i + 1;
        }
        match best {
            Some(b) => {
                assert(ids[b as int] == task_ids@[b as int]@);
                Ok(task_ids[b].clone())
            },
            None => Err(DomainError::validation("task_selection", "No breakable task found")),
        }
    }

    fn break_down_task(&self, task_id: &str) -> (r: Result<Vec<String>, DomainError>)
        ensures
            r matches Ok(v) && string_views(v@) == seq![task_id@ + "-subtask-1"@, task_id@ + "-subtask-2"@],
    {
        let mut v: Vec<String> = Vec::new();
        v.push(String::from_str(task_id).concat("-subtask-1"));
        v.push(String::from_str(task_id).concat("-subtask-2"));
        assert(string_views(v@) =~= seq![task_id@ + "-subtask-1"@, task_id@ + "-subtask-2"@]);
        Ok(v)
    }

    fn find_dependency_adjustment(&self, task_id: &str) -> (r: Option<DependencyAdjustment>)
        ensures
            r matches Some(a) && a.new_predecessor is None && a.new_successor is None && a.lag_time == 2 * HOUR_MILLIS,
    {
        Some(DependencyAdjustment { new_predecessor: None, new_successor: None, lag_time: 2 * HOUR_MILLIS })
    }

    fn find_adjustable_dependencies(&self, task_ids: &Vec<String>) -> (r: Result<Vec<(String, DependencyAdjustment)>, DomainError>)
        ensures
            r matches Ok(v) && v@.map_values(|p: (String, DependencyAdjustment)| p.0@) == first_occurrences(string_views(task_ids@)),
    {
        let ghost ids = string_views(task_ids@);
        let mut adjustments: Vec<(String, DependencyAdjustment)> = Vec::new();
        let mut keys: Vec<String> = Vec::new();
        let mut i: usize = 0;
        while i < task_ids.len()
            invariant
                0 <= i <= task_ids@.len(),
                ids == string_views(task_ids@),
                string_views(keys@) == first_occurrences(ids.take(i as int)),
                adjustments@.map_values(|p: (String, DependencyAdjustment)| p.0@) == string_views(keys@),
            decreases task_ids.len() - i,
        {
            proof {
                assert(ids.take(i as int + 1).drop_last() =~= ids.take(i as int));
                assert(ids.take(i as int + 1).last() == task_ids@[i as int]@);
            }
            match self.find_dependency_adjustment(task_ids[i].as_str()) {
                Some(adjustment) => {
                    if !strings_contain(&keys, task_ids[i].as_str()) {
                        let ghost k0 = string_views(keys@);
                        let ghost a0 = adjustments@.map_values(|p: (String, DependencyAdjustment)| p.0@);
                        keys.push(task_ids[i].clone());
                        adjustments.push((task_ids[i].clone(), adjustment));
                        assert(string_views(keys@) =~= k0.push(task_ids@[i as int]@));
                        assert(adjustments@.map_values(|p: (String, DependencyAdjustment)| p.0@) =~= a0.push(task_ids@[i as int]@));
                    }
                },
                None => {},
            }
            i = i + 1;
        }
        proof {
            assert(ids.take(ids.len() as int) =~= ids);
        }
        Ok(adjustments)
    }

    fn adjust_task_dependency(&mut self, task_id: &str, adjustment: DependencyAdjustment) -> (r: Result<(), DomainError>)
        ensures
            r is Ok,
            *final(self) == *old(self),
    {
        Ok(())
    }

    fn create_restructuring_plan(&self, conflict: &ResourceConflict) -> (r: Result<RestructuringPlan, DomainError>)
        ensures
            r matches Ok(p) && p.affected_tasks@ == conflict.conflicting_tasks@ && p.project_delay == DAY_MILLIS,
    {
        Ok(RestructuringPlan {
            affected_tasks: copy_strings(&conflict.conflicting_tasks),
            project_delay: DAY_MILLIS,
            new_dependencies: Vec::new(),
            resource_changes: Vec::new(),
        })
    }

    fn apply_restructuring_plan(&mut self, plan: &RestructuringPlan) -> (r: Result<(), DomainError>)
        ensures
            r is Ok,
            *final(self) == *old(self),
    {
        Ok(())
    }

    /// The strategies reported as tried for a conflict that none resolved.
    fn get_attempted_strategies(&self, conflict: &ResourceConflict) -> (r: Vec<ResolutionStrategy>)
        ensures
            r@ == seq![ResolutionStrategy::TimeShifting, ResolutionStrategy::ResourceReassignment],
    {
        let mut v: Vec<ResolutionStrategy> = Vec::new();
        v.push(ResolutionStrategy::TimeShifting);
        v.push(ResolutionStrategy::ResourceReassignment);
        assert(v@ =~= seq![ResolutionStrategy::TimeShifting, ResolutionStrategy::ResourceReassignment]);
        v
    }
}

impl ConflictResolver {
    fn apply_time_shifting(&mut self, conflict: &ResourceConflict) -> (r: Result<ConflictResolution, DomainError>)
        requires
            strategy_fits(resolve_state(*old(self)), ResolutionStrategy::TimeShifting, *conflict),
        ensures
            applied(*old(self), *final(self), ResolutionStrategy::TimeShifting, *conflict, r),
    {
        proof {
            reveal_strlit("Shifted task ");
            reveal_strlit(" by ");
            reveal_strlit(" hours");
        }
        let mut resolution = ConflictResolution::new(conflict.resource_id.clone());
        let best_task = match self.find_task_with_most_slack(&conflict.conflicting_tasks) {
            Ok(b) => b,
            Err(e) => {
                return Err(e);
            },
        };
        let shift = match self.calculate_optimal_shift(conflict, best_task.as_str()) {
            Ok(x) => x,
            Err(e) => {
                return Err(e);
            },
        };
        let _ = self.shift_task(best_task.as_str(), shift);
        resolution.method = ResolutionMethod::TimeShifting;
        resolution.description = String::from_str("Shifted task ").concat(best_task.as_str()).concat(" by ").concat(
            i64_to_text(num_hours(shift)).as_str(),
        ).concat(" hours");
        resolution.delay = shift;
        let mut affected: Vec<String> = Vec::new();
        affected.push(best_task);
        resolution.affected_tasks = affected;
        proof {
            assert(string_views(resolution.affected_tasks@) =~= seq![resolution.affected_tasks@[0]@]);
        }
        Ok(resolution)
    }

    fn apply_resource_reassignment(&mut self, conflict: &ResourceConflict) -> (r: Result<ConflictResolution, DomainError>)
        ensures
            applied(*old(self), *final(self), ResolutionStrategy::ResourceReassignment, *conflict, r),
    {
        proof {
            reveal_strlit("Reassigned task ");
            reveal_strlit(" from ");
            reveal_strlit(" to ");
        }
        let mut resolution = ConflictResolution::new(conflict.resource_id.clone());
        let alternative = match self.find_alternative_resource(conflict.resource_id.as_str()) {
            Ok(a) => a,
            Err(e) => {
                return Err(e);
            },
        };
        let best_task = match self.find_best_task_for_reassignment(&conflict.conflicting_tasks) {
            Ok(b) => b,
            Err(e) => {
                return Err(e);
            },
        };
        proof {
            assert(string_views(conflict.conflicting_tasks@)[0] == conflict.conflicting_tasks@[0]@);
        }
        let _ = self.reassign_task_to_resource(best_task.as_str(), alternative.as_str());
        resolution.method = ResolutionMethod::ResourceReassignment;
        resolution.description = String::from_str("Reassigned task ").concat(best_task.as_str()).concat(" from ").concat(
            conflict.resource_id.as_str(),
        ).concat(" to ").concat(alternative.as_str());
        let mut affected: Vec<String> = Vec::new();
        affected.push(best_task);
        resolution.affected_tasks = affected;
        resolution.new_resource = Some(alternative);
        proof {
            assert(string_views(resolution.affected_tasks@) =~= seq![resolution.affected_tasks@[0]@]);
        }
        Ok(resolution)
    }

    fn apply_task_breakdown(&mut self, conflict: &ResourceConflict) -> (r: Result<ConflictResolution, DomainError>)
        ensures
            applied(*old(self), *final(self), ResolutionStrategy::TaskBreakdown, *conflict, r),
    {
        proof {
            reveal_strlit("Broke down task ");
            reveal_strlit(" into ");
            reveal_strlit(" subtasks");
            reveal_strlit(" into 2 subtasks");
            reveal_strlit("2");
        }
        let mut resolution = ConflictResolution::new(conflict.resource_id.clone());
        let task_to_breakdown = match self.find_largest_breakable_task(&conflict.conflicting_tasks) {
            Ok(b) => b,
            Err(e) => {
                return Err(e);
            },
        };
        let subtasks = match self.break_down_task(task_to_breakdown.as_str()) {
            Ok(v) => v,
            Err(e) => {
                return Err(e);
            },
        };
        assert(string_views(subtasks@).len() == 2);
        assert(subtasks@.len() == 2);
        resolution.method = ResolutionMethod::TaskBreakdown;
        resolution.description = String::from_str("Broke down task ").concat(task_to_breakdown.as_str()).concat(" into ")
            .concat(usize_to_text(subtasks.len()).as_str()).concat(" subtasks");
        proof {
            assert(decimal(2) =~= "2"@);
            assert(resolution.description@ =~= "Broke down task "@ + task_to_breakdown@ + " into 2 subtasks"@);
        }
        let mut affected: Vec<String> = Vec::new();
        affected.push(task_to_breakdown);
        resolution.affected_tasks = affected;
        resolution.subtasks = Some(subtasks);
        proof {
            assert(string_views(resolution.affected_tasks@) =~= seq![resolution.affected_tasks@[0]@]);
        }
        Ok(resolution)
    }

    fn apply_dependency_adjustment(&mut self, conflict: &ResourceConflict) -> (r: Result<ConflictResolution, DomainError>)
        ensures
            applied(*old(self), *final(self), ResolutionStrategy::DependencyAdjustment, *conflict, r),
    {
        proof {
            reveal_strlit("Adjusted ");
            reveal_strlit(" dependencies");
        }
        let mut resolution = ConflictResolution::new(conflict.resource_id.clone());
        let adjustable = match self.find_adjustable_dependencies(&conflict.conflicting_tasks) {
            Ok(v) => v,
            Err(e) => {
                return Err(e);
            },
        };
        let ghost keys = adjustable@.map_values(|p: (String, DependencyAdjustment)| p.0@);
        let mut affected: Vec<String> = Vec::new();
        let mut i: usize = 0;
        while i < adjustable.len()
            invariant
                0 <= i <= adjustable@.len(),
                keys == adjustable@.map_values(|p: (String, DependencyAdjustment)| p.0@),
                string_views(affected@) == keys.take(i as int),
                *self == *old(self),
            decreases adjustable.len() - i,
        {
            let _ = self.adjust_task_dependency(adjustable[i].0.as_str(), adjustable[i].1.clone());
            let ghost before = string_views(affected@);
            affected.push(adjustable[i].0.clone());
            proof {
                assert(string_views(affected@) =~= before.push(keys[i as int]));
                assert(keys.take(i as int + 1) =~= keys.take(i as int).push(keys[i as int]));
            }
            i = i + 1;
        }
        proof {
            assert(keys.take(keys.len() as int) =~= keys);
        }
        resolution.method = ResolutionMethod::DependencyAdjustment;
        resolution.description = String::from_str("Adjusted ").concat(usize_to_text(adjustable.len()).as_str()).concat(
            " dependencies",
        );
        resolution.affected_tasks = affected;
        Ok(resolution)
    }

    fn apply_project_restructuring(&mut self, conflict: &ResourceConflict) -> (r: Result<ConflictResolution, DomainError>)
        ensures
            applied(*old(self), *final(self), ResolutionStrategy::ProjectRestructuring, *conflict, r),
    {
        proof {
            reveal_strlit("Restructured project to resolve critical conflict");
        }
        let mut resolution = ConflictResolution::new(conflict.resource_id.clone());
        let plan = match self.create_restructuring_plan(conflict) {
            Ok(p) => p,
            Err(e) => {
                return Err(e);
            },
        };
        let _ = self.apply_restructuring_plan(&plan);
        resolution.method = ResolutionMethod::ProjectRestructuring;
        resolution.description = String::from_str("Restructured project to resolve critical conflict");
        resolution.affected_tasks = copy_strings(&plan.affected_tasks);
        resolution.project_delay = Some(plan.project_delay);
        Ok(resolution)
    }

    fn apply_strategy(&mut self, strategy: ResolutionStrategy, conflict: &ResourceConflict) -> (r: Result<ConflictResolution, DomainError>)
        requires
            strategy_fits(resolve_state(*old(self)), strategy, *conflict),
        ensures
            applied(*old(self), *final(self), strategy, *conflict, r),
    {
        match strategy {
            ResolutionStrategy::TimeShifting => self.apply_time_shifting(conflict),
            ResolutionStrategy::ResourceReassignment => self.apply_resource_reassignment(conflict),
            ResolutionStrategy::TaskBreakdown => self.apply_task_breakdown(conflict),
            ResolutionStrategy::DependencyAdjustment => self.apply_dependency_adjustment(conflict),
            ResolutionStrategy::ProjectRestructuring => self.apply_project_restructuring(conflict),
        }
    }
}

/// The message of the error for a conflict that no strategy resolves.
pub open spec fn no_strategy_message() -> Seq<char> {
    "Validation error on 'conflict_resolution': No strategy could resolve this conflict"@
}

/// What trying the strategies of a resolver on a conflict does and hands back.
pub open spec fn conflict_resolved(before: ConflictResolver, after: ConflictResolver, c: ResourceConflict, r: Result<ConflictResolution, DomainError>) -> bool {
    let (st, o) = try_strategies(resolve_state(before), before.resolution_strategies@, 0, c);
    &&& resolve_state(after) == st
    &&& same_but_plan(after.schedule, before.schedule)
    &&& after.resolution_strategies == before.resolution_strategies
    &&& after.conflict_history == before.conflict_history
    &&& match o {
        Some(v) => r matches Ok(res) && resolution_view(res) == v,
        None => r matches Err(e) && e.text() == no_strategy_message(),
    }
}

/// Two conflicts with the same plain values are resolved alike.
pub proof fn lemma_try_strategies_view(st: ResolveState, strategies: Seq<ResolutionStrategy>, k: int, c: ResourceConflict, d: ResourceConflict)
    requires
        conflict_view(c) == conflict_view(d),
    ensures
        try_strategies(st, strategies, k, c) == try_strategies(st, strategies, k, d),
        strategies_fit(st, strategies, k, c) == strategies_fit(st, strategies, k, d),
    decreases strategies.len() - k,
{
    assert(string_views(c.conflicting_tasks@) == string_views(d.conflicting_tasks@));
    if 0 <= k < strategies.len() {
        lemma_try_strategies_view(st, strategies, k + 1, c, d);
        assert(apply_strategy(st, strategies[k], c) == apply_strategy(st, strategies[k], d));
        assert(strategy_fits(st, strategies[k], c) == strategy_fits(st, strategies[k], d));
    }
}

impl ConflictResolver {
    fn resolve_conflict(&mut self, conflict: &ResourceConflict) -> (r: Result<ConflictResolution, DomainError>)
        requires
            strategies_fit(resolve_state(*old(self)), old(self).resolution_strategies@, 0, *conflict),
        ensures
            conflict_resolved(*old(self), *final(self), *conflict, r),
    {
        let ghost st0 = resolve_state(*self);
        let ghost strategies = self.resolution_strategies@;
        let mut k: usize = 0;
        while k < self.resolution_strategies.len()
            invariant
                0 <= k <= strategies.len(),
                strategies == self.resolution_strategies@,
                strategies == old(self).resolution_strategies@,
                st0 == resolve_state(*old(self)),
                resolve_state(*self) == st0,
                same_but_plan(self.schedule, old(self).schedule),
                self.resolution_strategies == old(self).resolution_strategies,
                self.conflict_history == old(self).conflict_history,
                try_strategies(st0, strategies, 0, *conflict) == try_strategies(st0, strategies, k as int, *conflict),
                strategies_fit(st0, strategies, k as int, *conflict),
            decreases strategies.len() - k,
        {
            let strategy = self.resolution_strategies[k];
            match self.apply_strategy(strategy, conflict) {
                Ok(resolution) => {
                    return Ok(resolution);
                },
                Err(_) => {},
            }
            k = k + 1;
        }
        let e = DomainError::validation("conflict_resolution", "No strategy could resolve this conflict");
        proof {
            reveal_strlit("Validation error on '");
            reveal_strlit("': ");
            reveal_strlit("Validation error on 'conflict_resolution': No strategy could resolve this conflict");
            reveal_strlit("conflict_resolution");
            reveal_strlit("No strategy could resolve this conflict");
            assert(e.text() =~= no_strategy_message());
        }
        Err(e)
    }

    fn record_resolution(&mut self, conflict: ResourceConflict, resolution: ConflictResolution, now: i64)
        ensures
            final(self).schedule == old(self).schedule,
            final(self).resolution_strategies == old(self).resolution_strategies,
            final(self).conflict_history@ == old(self).conflict_history@.push(ConflictResolutionRecord {
                conflict,
                resolution,
                timestamp: now,
                success: true,
                resolution_time: 1_800_000i64,
            }),
    {
        self.conflict_history.push(ConflictResolutionRecord {
            conflict,
            resolution,
            timestamp: now,
            success: true,
            resolution_time: 1_800_000,
        });
    }
}

/// A record of the history as plain values.
pub open spec fn record_view(r: ConflictResolutionRecord) -> (ConflictViewOf, ResolutionView, i64, bool, i64) {
    (conflict_view(r.conflict), resolution_view(r.resolution), r.timestamp, r.success, r.resolution_time)
}

/// A conflict as plain values.
pub type ConflictViewOf = (Seq<char>, Seq<Seq<char>>, crate::scheduling::scheduler::TimeRange, ConflictSeverity, Option<Seq<char>>);

/// The resolutions among the outcomes, in order.
pub open spec fn successes_of(outs: Seq<Option<ResolutionView>>) -> Seq<ResolutionView>
    decreases outs.len(),
{
    if outs.len() == 0 {
        Seq::empty()
    } else {
        let r = successes_of(outs.drop_last());
        match outs.last() {
            Some(v) => r.push(v),
            None => r,
        }
    }
}

/// The failures among the outcomes, in order, each with its conflict, the message and
/// the strategies reported as tried.
pub open spec fn failures_of(cs: Seq<ResourceConflict>, outs: Seq<Option<ResolutionView>>) -> Seq<(ConflictViewOf, Seq<char>, Seq<ResolutionStrategy>)>
    decreases outs.len(),
{
    if outs.len() == 0 {
        Seq::empty()
    } else {
        let r = failures_of(cs, outs.drop_last());
        match outs.last() {
            Some(_) => r,
            None => r.push((
                conflict_view(cs[outs.len() - 1]),
                no_strategy_message(),
                seq![ResolutionStrategy::TimeShifting, ResolutionStrategy::ResourceReassignment],
            )),
        }
    }
}

/// The records the history gains for the outcomes, all made at `now`.
pub open spec fn records_of(cs: Seq<ResourceConflict>, outs: Seq<Option<ResolutionView>>, now: i64) -> Seq<(ConflictViewOf, ResolutionView, i64, bool, i64)>
    decreases outs.len(),
{
    if outs.len() == 0 {
        Seq::empty()
    } else {
        let r = records_of(cs, outs.drop_last(), now);
        match outs.last() {
            Some(v) => r.push((conflict_view(cs[outs.len() - 1]), v, now, true, 1_800_000i64)),
            None => r,
        }
    }
}

/// Resolving the first conflicts is resolving them, then the next.
pub proof fn lemma_resolve_run_step(st: ResolveState, strategies: Seq<ResolutionStrategy>, cs: Seq<ResourceConflict>, i: int)
    requires
        0 <= i < cs.len(),
    ensures
        resolve_run(st, strategies, cs.take(i + 1)) == ({
            let (st1, outs) = resolve_run(st, strategies, cs.take(i));
            let (st2, o) = try_strategies(st1, strategies, 0, cs[i]);
            (st2, outs.push(o))
        }),
{
    assert(cs.take(i + 1).drop_last() =~= cs.take(i));
    assert(cs.take(i + 1).last() == cs[i]);
}

/// There is one outcome per conflict.
pub proof fn lemma_resolve_run_len(st: ResolveState, strategies: Seq<ResolutionStrategy>, cs: Seq<ResourceConflict>)
    ensures
        resolve_run(st, strategies, cs).1.len() == cs.len(),
    decreases cs.len(),
{
    if cs.len() > 0 {
        lemma_resolve_run_len(st, strategies, cs.drop_last());
    }
}

fn collect_severity(cs: &Vec<ResourceConflict>, severity: ConflictSeverity, out: &mut Vec<ResourceConflict>)
    ensures
        final(out)@.map_values(|c: ResourceConflict| conflict_view(c))
            == old(out)@.map_values(|c: ResourceConflict| conflict_view(c))
            + cs@.filter(|c: ResourceConflict| c.severity == severity).map_values(|c: ResourceConflict| conflict_view(c)),
{
    let ghost o0 = out@.map_values(|c: ResourceConflict| conflict_view(c));
    let mut i: usize = 0;
    while i < cs.len()
        invariant
            0 <= i <= cs@.len(),
            o0 == old(out)@.map_values(|c: ResourceConflict| conflict_view(c)),
            out@.map_values(|c: ResourceConflict| conflict_view(c))
                == o0 + cs@.take(i as int).filter(|c: ResourceConflict| c.severity == severity).map_values(|c: ResourceConflict| conflict_view(c)),
        decreases cs.len() - i,
    {
        proof {
            let before = cs@.take(i as int);
            assert(cs@.take(i as int + 1) =~= before.push(cs@[i as int]));
            reveal(Seq::filter);
            assert(before.push(cs@[i as int]).drop_last() =~= before);
        }
        let ghost b = out@.map_values(|c: ResourceConflict| conflict_view(c));
        if cs[i].severity == severity {
            out.push(cs[i].clone());
            proof {
                let f = cs@.take(i as int).filter(|c: ResourceConflict| c.severity == severity);
                assert(out@.map_values(|c: ResourceConflict| conflict_view(c)) =~= b.push(conflict_view(cs@[i as int])));
                assert(f.push(cs@[i as int]).map_values(|c: ResourceConflict| conflict_view(c))
                    =~= f.map_values(|c: ResourceConflict| conflict_view(c)).push(conflict_view(cs@[i as int])));
            }
        }
        i = i + 1;
    }
    proof {
        assert(cs@.take(cs@.len() as int) =~= cs@);
    }
}

/// What resolving every conflict at the instant `now` does: the conflicts are taken
/// most severe first and resolved in turn by the strategies; the report gathers the
/// resolutions and failures, and the history gains a record of each resolution.
pub open spec fn resolved_all(before: ConflictResolver, after: ConflictResolver, now: i64, r: Result<ConflictResolutionReport, DomainError>) -> bool {
    let sorted = by_severity(before.schedule.conflicts@);
    let (st, outs) = resolve_run(resolve_state(before), before.resolution_strategies@, sorted);
    &&& resolve_state(after) == st
    &&& same_but_plan(after.schedule, before.schedule)
    &&& after.resolution_strategies == before.resolution_strategies
    &&& after.conflict_history@.map_values(|x: ConflictResolutionRecord| record_view(x))
        == before.conflict_history@.map_values(|x: ConflictResolutionRecord| record_view(x)) + records_of(sorted, outs, now)
    &&& r matches Ok(rep) && {
        &&& rep.total_conflicts == before.schedule.conflicts@.len()
        &&& rep.successful_resolutions@.map_values(|x: ConflictResolution| resolution_view(x)) == successes_of(outs)
        &&& rep.failed_resolutions@.map_values(|x: FailedConflictResolution| (conflict_view(x.conflict), x.error@, x.attempted_strategies@))
            == failures_of(sorted, outs)
        &&& rep.resolved_conflicts == successes_of(outs).len()
        &&& rep.failed_conflicts == failures_of(sorted, outs).len()
    }
}

impl ConflictResolver {
    /// Resolves every conflict of the schedule at the instant `now`, most severe first.
    pub fn resolve_all_conflicts_at(&mut self, now: i64) -> (r: Result<ConflictResolutionReport, DomainError>)
        requires
            resolve_fits(resolve_state(*old(self)), old(self).resolution_strategies@, by_severity(old(self).schedule.conflicts@)),
        ensures
            resolved_all(*old(self), *final(self), now, r),
    {
        let ghost cs = self.schedule.conflicts@;
        let ghost ys = by_severity(cs);
        let ghost st0 = resolve_state(*self);
        let ghost strategies = self.resolution_strategies@;
        let ghost h0 = self.conflict_history@.map_values(|x: ConflictResolutionRecord| record_view(x));
        let mut sorted: Vec<ResourceConflict> = Vec::new();
        collect_severity(&self.schedule.conflicts, ConflictSeverity::Critical, &mut sorted);
        collect_severity(&self.schedule.conflicts, ConflictSeverity::High, &mut sorted);
        collect_severity(&self.schedule.conflicts, ConflictSeverity::Medium, &mut sorted);
        collect_severity(&self.schedule.conflicts, ConflictSeverity::Low, &mut sorted);
        proof {
            let e = Seq::<ResourceConflict>::empty().map_values(|c: ResourceConflict| conflict_view(c));
            assert(e =~= Seq::<ConflictViewOf>::empty());
            let f1 = cs.filter(|c: ResourceConflict| c.severity == ConflictSeverity::Critical);
            let f2 = cs.filter(|c: ResourceConflict| c.severity == ConflictSeverity::High);
            let f3 = cs.filter(|c: ResourceConflict| c.severity == ConflictSeverity::Medium);
            let f4 = cs.filter(|c: ResourceConflict| c.severity == ConflictSeverity::Low);
            assert(ys.map_values(|c: ResourceConflict| conflict_view(c)) =~= e + f1.map_values(|c: ResourceConflict| conflict_view(c))
                + f2.map_values(|c: ResourceConflict| conflict_view(c)) + f3.map_values(|c: ResourceConflict| conflict_view(c))
                + f4.map_values(|c: ResourceConflict| conflict_view(c)));
            lemma_resolve_run_len(st0, strategies, ys);
        }
        let mut report = ConflictResolutionReport::new();
        proof {
            assert(report.successful_resolutions@.map_values(|x: ConflictResolution| resolution_view(x)) =~= Seq::<ResolutionView>::empty());
            assert(report.failed_resolutions@.map_values(|x: FailedConflictResolution| (conflict_view(x.conflict), x.error@, x.attempted_strategies@))
                =~= Seq::<(ConflictViewOf, Seq<char>, Seq<ResolutionStrategy>)>::empty());
            assert(ys.take(0) =~= Seq::<ResourceConflict>::empty());
            assert(h0 + records_of(ys, Seq::<Option<ResolutionView>>::empty(), now) =~= h0);
        }
        let mut i: usize = 0;
        while i < sorted.len()
            invariant
                0 <= i <= sorted@.len(),
                sorted@.len() == ys.len(),
                sorted@.map_values(|c: ResourceConflict| conflict_view(c)) == ys.map_values(|c: ResourceConflict| conflict_view(c)),
                cs == old(self).schedule.conflicts@,
                ys == by_severity(cs),
                st0 == resolve_state(*old(self)),
                strategies == old(self).resolution_strategies@,
                h0 == old(self).conflict_history@.map_values(|x: ConflictResolutionRecord| record_view(x)),
                resolve_fits(st0, strategies, ys),
                self.resolution_strategies == old(self).resolution_strategies,
                same_but_plan(self.schedule, old(self).schedule),
                resolve_state(*self) == resolve_run(st0, strategies, ys.take(i as int)).0,
                self.conflict_history@.map_values(|x: ConflictResolutionRecord| record_view(x))
                    == h0 + records_of(ys, resolve_run(st0, strategies, ys.take(i as int)).1, now),
                report.total_conflicts == 0,
                report.successful_resolutions@.map_values(|x: ConflictResolution| resolution_view(x))
                    == successes_of(resolve_run(st0, strategies, ys.take(i as int)).1),
                report.failed_resolutions@.map_values(|x: FailedConflictResolution| (conflict_view(x.conflict), x.error@, x.attempted_strategies@))
                    == failures_of(ys, resolve_run(st0, strategies, ys.take(i as int)).1),
                resolve_run(st0, strategies, ys.take(i as int)).1.len() == i,
            decreases sorted.len() - i,
        {
            let ghost outs0 = resolve_run(st0, strategies, ys.take(i as int)).1;
            let ghost sti = resolve_run(st0, strategies, ys.take(i as int)).0;
            proof {
                assert(sorted@.map_values(|c: ResourceConflict| conflict_view(c))[i as int] == conflict_view(sorted@[i as int]));
                assert(ys.map_values(|c: ResourceConflict| conflict_view(c))[i as int] == conflict_view(ys[i as int]));
                lemma_try_strategies_view(sti, strategies, 0, sorted@[i as int], ys[i as int]);
                lemma_resolve_run_step(st0, strategies, ys, i as int);
                assert(strategies_fit(sti, strategies, 0, ys[i as int]));
            }
            let conflict = sorted[i].clone();
            proof {
                lemma_try_strategies_view(sti, strategies, 0, conflict, ys[i as int]);
            }
            let ghost o = try_strategies(sti, strategies, 0, ys[i as int]).1;
            let ghost h_before = self.conflict_history@.map_values(|x: ConflictResolutionRecord| record_view(x));
            let ghost s_before = report.successful_resolutions@.map_values(|x: ConflictResolution| resolution_view(x));
            let ghost f_before = report.failed_resolutions@.map_values(|x: FailedConflictResolution| (conflict_view(x.conflict), x.error@, x.attempted_strategies@));
            proof {
                assert(outs0.push(o).drop_last() =~= outs0);
            }
            match self.resolve_conflict(&conflict) {
                Ok(resolution) => {
                    report.successful_resolutions.push(resolution.clone());
                    proof {
                        assert(report.successful_resolutions@.map_values(|x: ConflictResolution| resolution_view(x)) =~= s_before.push(o->Some_0));
                    }
                    let ghost rv = resolution_view(resolution);
                    self.record_resolution(conflict, resolution, now);
                    proof {
                        assert(self.conflict_history@.map_values(|x: ConflictResolutionRecord| record_view(x))
                            =~= h_before.push((conflict_view(ys[i as int]), o->Some_0, now, true, 1_800_000i64)));
                    }
                },
                Err(e) => {
                    let failure = FailedConflictResolution {
                        conflict: conflict.clone(),
                        error: e.to_text(),
                        attempted_strategies: self.get_attempted_strategies(&conflict),
                    };
                    report.failed_resolutions.push(failure);
                    proof {
                        assert(report.failed_resolutions@.map_values(|x: FailedConflictResolution| (conflict_view(x.conflict), x.error@, x.attempted_strategies@))
                            =~= f_before.push((conflict_view(ys[i as int]), no_strategy_message(), seq![ResolutionStrategy::TimeShifting, ResolutionStrategy::ResourceReassignment])));
                    }
                },
            }
            i = i + 1;
        }
        proof {
            assert(ys.take(ys.len() as int) =~= ys);
        }
        report.total_conflicts = self.schedule.conflicts.len();
        report.resolved_conflicts = report.successful_resolutions.len();
        report.failed_conflicts = report.failed_resolutions.len();
        Ok(report)
    }

    /// Resolves every conflict of the schedule now, most severe first.
    pub fn resolve_all_conflicts(&mut self) -> (r: Result<ConflictResolutionReport, DomainError>)
        requires
            resolve_fits(resolve_state(*old(self)), old(self).resolution_strategies@, by_severity(old(self).schedule.conflicts@)),
        ensures
            exists|now: i64| #[trigger] resolved_all(*old(self), *final(self), now, r),
    {
        self.resolve_all_conflicts_at(now_millis())
    }
}

} // verus!
