//! Critical path analysis of a project schedule: the chain of critical tasks, the
//! spread of slack, the effect of delays, suggestions and risk.

use vstd::prelude::*;
use crate::errors::DomainError;
use crate::text::{decimal, i64_to_text, signed_decimal, usize_to_text};
use crate::project_management::calculation_cache_system::{string_views, strings_contain, MAX_DURATION_DAYS};
use crate::scheduling::scheduler::{
    find_scheduled, find_task_position, refers_to, schedule_time, ProjectSchedule, ResourceConflict,
    ScheduledTask,
};

verus! {

/// What delaying a task does to the project.
#[derive(Debug, Clone, PartialEq, Eq)]
pub enum DelayImpact {
    NoImpact,
    TaskNotFound,
    CriticalTaskDelay { project_delay_days: i64, affected_tasks: Vec<String> },
    NonCriticalDelay { excess_delay_days: i64, affected_tasks: Vec<String> },
}

/// Ways to shorten a schedule.
#[derive(Debug, Clone, Copy, PartialEq, Eq)]
pub enum OptimizationSuggestion {
    DelayNonCriticalTasks { task_count: usize, potential_savings_days: i64 },
    ResolveCriticalConflicts { conflict_count: usize },
    ParallelizeTasks { opportunity_count: usize },
}

/// The sentence that states a suggestion.
pub open spec fn suggestion_text(v: OptimizationSuggestion) -> Seq<char> {
    match v {
        OptimizationSuggestion::DelayNonCriticalTasks { task_count, potential_savings_days } => "Delay "@
            + decimal(task_count as nat) + " non-critical tasks to save up to "@ + signed_decimal(
            potential_savings_days as int,
        ) + " days"@,
        OptimizationSuggestion::ResolveCriticalConflicts { conflict_count } => "Resolve "@ + decimal(
            conflict_count as nat,
        ) + " conflicts on critical path"@,
        OptimizationSuggestion::ParallelizeTasks { opportunity_count } => "Parallelize "@ + decimal(
            opportunity_count as nat,
        ) + " task groups to reduce duration"@,
    }
}

impl OptimizationSuggestion {
    /// The sentence that states the suggestion.
    pub fn to_string(&self) -> (s: String)
        ensures
            s@ == suggestion_text(*self),
    {
        proof {
            reveal_strlit("Delay ");
            reveal_strlit(" non-critical tasks to save up to ");
            reveal_strlit(" days");
            reveal_strlit("Resolve ");
            reveal_strlit(" conflicts on critical path");
            reveal_strlit("Parallelize ");
            reveal_strlit(" task groups to reduce duration");
        }
        match self {
            OptimizationSuggestion::DelayNonCriticalTasks { task_count, potential_savings_days } => {
                let s = String::from_str("Delay ").concat(usize_to_text(*task_count).as_str());
                let s = s.concat(" non-critical tasks to save up to ");
                let s = s.concat(i64_to_text(*potential_savings_days).as_str());
                s.concat(" days")
            },
            OptimizationSuggestion::ResolveCriticalConflicts { conflict_count } => {
                let s = String::from_str("Resolve ").concat(usize_to_text(*conflict_count).as_str());
                s.concat(" conflicts on critical path")
            },
            OptimizationSuggestion::ParallelizeTasks { opportunity_count } => {
                let s = String::from_str("Parallelize ").concat(usize_to_text(*opportunity_count).as_str());
                s.concat(" task groups to reduce duration")
            },
        }
    }
}

/// How risky a critical path is.
#[derive(Debug, Clone, Copy, PartialEq, Eq, Structural)]
pub enum RiskLevel {
    Low,
    Medium,
    High,
}

/// The name of a value of `RiskLevel`.
pub open spec fn risk_level_text(v: RiskLevel) -> Seq<char> {
    match v {
        RiskLevel::Low => "Low"@,
        RiskLevel::Medium => "Medium"@,
        RiskLevel::High => "High"@,
    }
}

impl RiskLevel {
    /// The readable name.
    pub fn to_string(&self) -> (s: String)
        ensures
            s@ == risk_level_text(*self),
    {
        let t = match self {
            RiskLevel::Low => "Low",
            RiskLevel::Medium => "Medium",
            RiskLevel::High => "High",
        };
        String::from_str(t)
    }
}


/// The whole days of a span in milliseconds, rounded toward zero.
pub open spec fn whole_days(ms: int) -> int {
    if ms >= 0 { ms / 86_400_000 } else { -((-ms) / 86_400_000) }
}

/// The whole hours of a span in milliseconds, rounded toward zero.
pub open spec fn whole_hours(ms: int) -> int {
    if ms >= 0 { ms / 3_600_000 } else { -((-ms) / 3_600_000) }
}

pub(crate) fn num_days(ms: i64) -> (d: i64)
    ensures
        d == whole_days(ms as int),
{
    if ms >= 0 {
        ((ms as u64) / 86_400_000) as i64
    } else {
        let p: i128 = -(ms as i128);
        -((p / 86_400_000) as i64)
    }
}

pub(crate) fn num_hours(ms: i64) -> (h: i64)
    ensures
        h == whole_hours(ms as int),
{
    if ms >= 0 {
        ((ms as u64) / 3_600_000) as i64
    } else {
        let p: i128 = -(ms as i128);
        -((p / 3_600_000) as i64)
    }
}

/// The critical tasks of a schedule, in order.
pub open spec fn critical_of(tasks: Seq<ScheduledTask>) -> Seq<ScheduledTask> {
    tasks.filter(|t: ScheduledTask| t.is_critical)
}

/// The position of the first task with the smallest early start, scanning from
/// position `i` with the best one so far.
pub open spec fn earliest_from(c: Seq<ScheduledTask>, i: int, best: int) -> int
    decreases c.len() - i,
{
    if i < 0 || i >= c.len() {
        best
    } else if c[i].early_start < c[best].early_start {
        earliest_from(c, i + 1, i)
    } else {
        earliest_from(c, i + 1, best)
    }
}

/// The position of the first task, from position `i` on, that starts no earlier than
/// `finish`.
pub open spec fn starting_after_from(c: Seq<ScheduledTask>, finish: i64, i: int) -> Option<int>
    decreases c.len() - i,
{
    if i < 0 || i >= c.len() {
        None
    } else if c[i].early_start >= finish {
        Some(i)
    } else {
        starting_after_from(c, finish, i + 1)
    }
}

/// The chain of critical tasks followed from the task at `cur`, with `path` so far:
/// the next one is the first that starts no earlier than the current one finishes,
/// and the chain ends where there is none or it is already in the chain.
pub open spec fn walk(c: Seq<ScheduledTask>, path: Seq<Seq<char>>, cur: int) -> Seq<Seq<char>>
    decreases c.len() - path.len(),
{
    if path.len() >= c.len() || cur < 0 || cur >= c.len() {
        path
    } else {
        match starting_after_from(c, c[cur].early_finish, 0) {
            None => path,
            Some(j) => if path.contains(c[j].task_id@) {
                path
            } else {
                walk(c, path.push(c[j].task_id@), j)
            },
        }
    }
}

/// The critical path of a schedule: the chain that starts at the first critical task
/// with the smallest early start; empty without critical tasks.
pub open spec fn critical_path_of(tasks: Seq<ScheduledTask>) -> Seq<Seq<char>> {
    let c = critical_of(tasks);
    if c.len() == 0 {
        Seq::empty()
    } else {
        let s = earliest_from(c, 1, 0);
        walk(c, seq![c[s].task_id@], s)
    }
}

/// The time from the early start of the first task of a path to the early finish of
/// its last; zero for an empty path or one whose ends are not in the schedule.
pub open spec fn path_duration(tasks: Seq<ScheduledTask>, path: Seq<Seq<char>>) -> int {
    if path.len() == 0 {
        0
    } else {
        match (find_scheduled(tasks, path[0]), find_scheduled(tasks, path.last())) {
            (Some(a), Some(b)) => tasks[b].early_finish - tasks[a].early_start,
            _ => 0,
        }
    }
}

/// Whether the early dates of every task lie far inside what `i64` holds.
pub open spec fn early_dates_ok(tasks: Seq<ScheduledTask>) -> bool {
    forall|i: int| 0 <= i < tasks.len() ==> schedule_time((#[trigger] tasks[i]).early_start as int)
        && schedule_time(tasks[i].early_finish as int)
}

/// The total slack, or the free slack, of a task.
pub open spec fn slack(t: ScheduledTask, free: bool) -> int {
    if free { t.free_slack as int } else { t.total_slack as int }
}

/// The sum of the slacks of the tasks.
pub open spec fn slack_sum(tasks: Seq<ScheduledTask>, free: bool) -> int
    decreases tasks.len(),
{
    if tasks.len() == 0 {
        0
    } else {
        slack_sum(tasks.drop_last(), free) + slack(tasks.last(), free)
    }
}

/// Whether summing the slacks in order never leaves the range of a `chrono::Duration`,
/// plus or minus the largest `i64` in milliseconds.
pub open spec fn slack_sums_fit(tasks: Seq<ScheduledTask>, free: bool) -> bool {
    forall|i: int| 0 <= i <= tasks.len() ==> -i64::MAX <= #[trigger] slack_sum(tasks.take(i), free) <= i64::MAX
}

/// The number of tasks whose slack is `days` whole days.
pub open spec fn count_days(tasks: Seq<ScheduledTask>, free: bool, days: int) -> nat
    decreases tasks.len(),
{
    if tasks.len() == 0 {
        0
    } else {
        count_days(tasks.drop_last(), free, days) + if whole_days(slack(tasks.last(), free)) == days { 1nat } else { 0nat }
    }
}

/// The number of critical tasks.
pub open spec fn count_critical(tasks: Seq<ScheduledTask>) -> nat {
    critical_of(tasks).len()
}

/// `a` divided by a positive `b`, rounded toward zero.
pub open spec fn div_toward_zero(a: int, b: int) -> int {
    if a >= 0 { a / b } else { -((-a) / b) }
}

/// Whether a list of slack days and counts tells, once per number of days, how many
/// tasks have that slack.
pub open spec fn is_distribution(d: Seq<(i64, usize)>, tasks: Seq<ScheduledTask>, free: bool) -> bool {
    &&& forall|i: int, j: int| 0 <= i < j < d.len() ==> (#[trigger] d[i]).0 != (#[trigger] d[j]).0
    &&& forall|i: int| 0 <= i < d.len() ==> (#[trigger] d[i]).1 == count_days(tasks, free, d[i].0 as int) && d[i].1 > 0
    &&& forall|k: int| 0 <= k < tasks.len() ==> exists|i: int| 0 <= i < d.len() && (#[trigger] d[i]).0 == whole_days(slack(#[trigger] tasks[k], free))
}

/// The tasks with at least `threshold` whole days of total slack, in order.
pub open spec fn high_slack_of(tasks: Seq<ScheduledTask>, threshold: int) -> Seq<ScheduledTask> {
    tasks.filter(|t: ScheduledTask| whole_days(t.total_slack as int) >= threshold)
}

/// The largest number of whole days of total slack among the tasks; zero among none.
pub open spec fn most_slack_days(tasks: Seq<ScheduledTask>) -> int
    decreases tasks.len(),
{
    if tasks.len() == 0 {
        0
    } else if tasks.len() == 1 {
        whole_days(tasks[0].total_slack as int)
    } else {
        let m = most_slack_days(tasks.drop_last());
        let d = whole_days(tasks.last().total_slack as int);
        if d > m { d } else { m }
    }
}

/// Whether the first task of the schedule with the identifier is critical.
pub open spec fn is_critical_id(tasks: Seq<ScheduledTask>, id: Seq<char>) -> bool {
    match find_scheduled(tasks, id) {
        Some(k) => tasks[k].is_critical,
        None => false,
    }
}

/// Whether a conflict involves a critical task of the schedule.
pub open spec fn touches_critical(tasks: Seq<ScheduledTask>, c: ResourceConflict) -> bool {
    exists|i: int| 0 <= i < c.conflicting_tasks@.len() && #[trigger] is_critical_id(tasks, c.conflicting_tasks@[i]@)
}

/// The number of conflicts that involve a critical task.
pub open spec fn critical_conflict_count(tasks: Seq<ScheduledTask>, conflicts: Seq<ResourceConflict>) -> nat
    decreases conflicts.len(),
{
    if conflicts.len() == 0 {
        0
    } else {
        critical_conflict_count(tasks, conflicts.drop_last()) + if touches_critical(tasks, conflicts.last()) { 1nat } else { 0nat }
    }
}

/// The suggestions for a schedule: to delay the tasks with a week or more of slack,
/// where there are any; then to resolve the conflicts on critical tasks, where there
/// are any.
pub open spec fn suggestions_for(tasks: Seq<ScheduledTask>, conflicts: Seq<ResourceConflict>) -> Seq<OptimizationSuggestion> {
    let high = high_slack_of(tasks, 7);
    let n = critical_conflict_count(tasks, conflicts);
    (if high.len() > 0 {
        seq![OptimizationSuggestion::DelayNonCriticalTasks {
            task_count: high.len() as usize,
            potential_savings_days: most_slack_days(high) as i64,
        }]
    } else {
        Seq::empty()
    }) + (if n > 0 {
        seq![OptimizationSuggestion::ResolveCriticalConflicts { conflict_count: n as usize }]
    } else {
        Seq::empty()
    })
}

/// The risk of a critical path, scored from the share of critical tasks (over 80, 60
/// or 40 percent), the critical tasks with less than a day of slack (over 5, 3 or 1)
/// and the conflicts on critical tasks (over 3 or 1): high from 6 points, medium from 3.
pub open spec fn risk_level_for(critical: int, total: int, high_risk: int, conflicts: int) -> RiskLevel {
    let a = if total > 0 && 100 * critical > 80 * total {
        3int
    } else if total > 0 && 100 * critical > 60 * total {
        2int
    } else if total > 0 && 100 * critical > 40 * total {
        1int
    } else {
        0int
    };
    let b = if high_risk > 5 { 3int } else if high_risk > 3 { 2int } else if high_risk > 1 { 1int } else { 0int };
    let c = if conflicts > 3 { 2int } else if conflicts > 1 { 1int } else { 0int };
    if a + b + c >= 6 {
        RiskLevel::High
    } else if a + b + c >= 3 {
        RiskLevel::Medium
    } else {
        RiskLevel::Low
    }
}

/// The critical tasks with less than a day of total slack.
pub open spec fn tight_critical_of(tasks: Seq<ScheduledTask>) -> Seq<ScheduledTask> {
    critical_of(tasks).filter(|t: ScheduledTask| whole_hours(t.total_slack as int) < 24)
}

/// How the slack of a schedule is spread: how many tasks have each number of whole
/// days of slack, the average slack in milliseconds (rounded toward zero), the number
/// of tasks and the number of critical ones.
#[derive(Debug, Clone, PartialEq, Eq)]
pub struct SlackAnalysis {
    pub distribution: Vec<(i64, usize)>,
    pub average_slack_millis: i64,
    pub total_tasks: usize,
    pub critical_tasks: usize,
}

/// What the analysis says of the slack of the tasks.
pub open spec fn analyses(a: SlackAnalysis, tasks: Seq<ScheduledTask>, free: bool) -> bool {
    &&& is_distribution(a.distribution@, tasks, free)
    &&& a.average_slack_millis == if tasks.len() > 0 { div_toward_zero(slack_sum(tasks, free), tasks.len() as int) } else { 0 }
    &&& a.total_tasks == tasks.len()
    &&& a.critical_tasks == count_critical(tasks)
}

/// The outcome of a critical path analysis.
#[derive(Debug, Clone, PartialEq, Eq)]
pub struct CriticalPathAnalysis {
    pub critical_path: Vec<String>,
    pub critical_tasks: Vec<String>,
    pub total_slack_analysis: SlackAnalysis,
    pub free_slack_analysis: SlackAnalysis,
    pub project_duration: i64,
    pub critical_path_duration: i64,
}

/// The Critical Path Method over a schedule.
#[derive(Debug)]
pub struct CriticalPathCalculator {
    pub schedule: ProjectSchedule,
}

fn earliest_index(c: &Vec<&ScheduledTask>) -> (s: usize)
    requires
        c@.len() > 0,
    ensures
        s < c@.len(),
        s == earliest_from(c@.map_values(|t: &ScheduledTask| *t), 1, 0),
{
    let ghost cs = c@.map_values(|t: &ScheduledTask| *t);
    let mut best: usize = 0;
    let mut i: usize = 1;
    while i < c.len()
        invariant
            1 <= i <= c@.len(),
            best < i,
            cs == c@.map_values(|t: &ScheduledTask| *t),
            earliest_from(cs, 1, 0) == earliest_from(cs, i as int, best as int),
        decreases c.len() - i,
    {
        if c[i].early_start < c[best].early_start {
            best = i;
        }
        i = i + 1;
    }
    best
}

fn next_starting_after(c: &Vec<&ScheduledTask>, finish: i64) -> (r: Option<usize>)
    ensures
        match starting_after_from(c@.map_values(|t: &ScheduledTask| *t), finish, 0) {
            Some(j) => r matches Some(k) && k == j && k < c@.len(),
            None => r is None,
        },
{
    let ghost cs = c@.map_values(|t: &ScheduledTask| *t);
    let mut i: usize = 0;
    while i < c.len()
        invariant
            0 <= i <= c@.len(),
            cs == c@.map_values(|t: &ScheduledTask| *t),
            starting_after_from(cs, finish, 0) == starting_after_from(cs, finish, i as int),
        decreases c.len() - i,
    {
        if c[i].early_start >= finish {
            return Some(i);
        }
        i = i + 1;
    }
    None
}

/// No task has a slack of `days` whole days where none of them does.
pub proof fn lemma_count_days_zero(tasks: Seq<ScheduledTask>, free: bool, days: int)
    requires
        forall|k: int| 0 <= k < tasks.len() ==> whole_days(slack(#[trigger] tasks[k], free)) != days,
    ensures
        count_days(tasks, free, days) == 0,
    decreases tasks.len(),
{
    if tasks.len() > 0 {
        assert forall|k: int| 0 <= k < tasks.drop_last().len() implies whole_days(slack(#[trigger] tasks.drop_last()[k], free)) != days by {
            assert(tasks.drop_last()[k] == tasks[k]);
        }
        lemma_count_days_zero(tasks.drop_last(), free, days);
        assert(whole_days(slack(tasks[tasks.len() - 1], free)) != days);
    }
}

/// At most every task has a given slack.
pub proof fn lemma_count_days_bound(tasks: Seq<ScheduledTask>, free: bool, days: int)
    ensures
        count_days(tasks, free, days) <= tasks.len(),
    decreases tasks.len(),
{
    if tasks.len() > 0 {
        lemma_count_days_bound(tasks.drop_last(), free, days);
    }
}

fn analyze_slack(tasks: &Vec<ScheduledTask>, free: bool) -> (a: SlackAnalysis)
    requires
        slack_sums_fit(tasks@, free),
    ensures
        analyses(a, tasks@, free),
{
    let mut distribution: Vec<(i64, usize)> = Vec::new();
    let mut sum: i64 = 0;
    let mut critical: usize = 0;
    let mut i: usize = 0;
    while i < tasks.len()
        invariant
            0 <= i <= tasks@.len(),
            slack_sums_fit(tasks@, free),
            is_distribution(distribution@, tasks@.take(i as int), free),
            sum == slack_sum(tasks@.take(i as int), free),
            critical == count_critical(tasks@.take(i as int)),
            critical <= i,
        decreases tasks.len() - i,
    {
        let ghost pre = tasks@.take(i as int);
        let ghost next = tasks@.take(i as int + 1);
        let t = &tasks[i];
        proof {
            assert(next.drop_last() =~= pre);
            assert(next.last() == *t);
            assert(next =~= pre.push(*t));
            reveal(Seq::filter);
            assert(slack_sum(tasks@.take(i as int + 1), free) == sum + slack(*t, free));
        }
        let s = if free { t.free_slack } else { t.total_slack };
        let key = num_days(s);
        let ghost d0 = distribution@;
        let mut j: usize = 0;
        while j < distribution.len()
            invariant
                0 <= j <= distribution@.len(),
                distribution@ == d0,
                forall|q: int| 0 <= q < j ==> (#[trigger] d0[q]).0 != key,
            ensures
                0 <= j <= distribution@.len(),
                distribution@ == d0,
                forall|q: int| 0 <= q < j ==> (#[trigger] d0[q]).0 != key,
                j < distribution@.len() ==> d0[j as int].0 == key,
            decreases distribution.len() - j,
        {
            if distribution[j].0 == key {
                break;
            }
            j = j + 1;
        }
        if j < distribution.len() {
            proof {
                lemma_count_days_bound(pre, free, key as int);
            }
            let c = distribution[j].1;
            distribution.set(j, (key, c + 1));
            proof {
                assert forall|q: int| 0 <= q < distribution@.len() implies (#[trigger] distribution@[q]).1 == count_days(next, free, distribution@[q].0 as int)
                    && distribution@[q].1 > 0 by {
                    assert(count_days(next, free, distribution@[q].0 as int) == count_days(pre, free, distribution@[q].0 as int)
                        + if whole_days(slack(*t, free)) == distribution@[q].0 { 1nat } else { 0nat });
                }
                assert forall|k: int| 0 <= k < next.len() implies exists|q: int| 0 <= q < distribution@.len() && (#[trigger] distribution@[q]).0 == whole_days(slack(#[trigger] next[k], free)) by {
                    if k < i {
                        assert(next[k] == pre[k]);
                        let q0 = choose|q: int| 0 <= q < d0.len() && (#[trigger] d0[q]).0 == whole_days(slack(pre[k], free));
                        assert(distribution@[q0].0 == d0[q0].0);
                    } else {
                        assert(distribution@[j as int].0 == key);
                    }
                }
            }
        } else {
            proof {
                assert forall|k: int| 0 <= k < pre.len() implies whole_days(slack(#[trigger] pre[k], free)) != key by {
                    let q0 = choose|q: int| 0 <= q < d0.len() && (#[trigger] d0[q]).0 == whole_days(slack(pre[k], free));
                    assert(d0[q0].0 != key);
                }
                lemma_count_days_zero(pre, free, key as int);
            }
            distribution.push((key, 1));
            proof {
                assert forall|q: int| 0 <= q < distribution@.len() implies (#[trigger] distribution@[q]).1 == count_days(next, free, distribution@[q].0 as int)
                    && distribution@[q].1 > 0 by {
                    assert(count_days(next, free, distribution@[q].0 as int) == count_days(pre, free, distribution@[q].0 as int)
                        + if whole_days(slack(*t, free)) == distribution@[q].0 { 1nat } else { 0nat });
                    if q < d0.len() {
                        assert(distribution@[q] == d0[q]);
                    }
                }
                assert forall|k: int| 0 <= k < next.len() implies exists|q: int| 0 <= q < distribution@.len() && (#[trigger] distribution@[q]).0 == whole_days(slack(#[trigger] next[k], free)) by {
                    if k < i {
                        assert(next[k] == pre[k]);
                        let q0 = choose|q: int| 0 <= q < d0.len() && (#[trigger] d0[q]).0 == whole_days(slack(pre[k], free));
                        assert(distribution@[q0].0 == d0[q0].0);
                    } else {
                        assert(distribution@[d0.len() as int].0 == key);
                    }
                }
                assert forall|a: int, b: int| 0 <= a < b < distribution@.len() implies (#[trigger] distribution@[a]).0 != (#[trigger] distribution@[b]).0 by {
                    if b == d0.len() {
                        assert(distribution@[a] == d0[a]);
                    } else {
                        assert(distribution@[a] == d0[a]);
                        assert(distribution@[b] == d0[b]);
                    }
                }
            }
        }
        assert(-i64::MAX <= slack_sum(tasks@.take(i as int + 1), free) <= i64::MAX);
        sum = sum + s;
        if t.is_critical {
            critical = critical + 1;
        }
        i = i + 1;
    }
    proof {
        assert(tasks@.take(tasks@.len() as int) =~= tasks@);
    }
    let n = tasks.len();
    let average: i64 = if n == 0 {
        0
    } else if sum >= 0 {
        ((sum as i128) / (n as i128)) as i64
    } else {
        -((-(sum as i128)) / (n as i128)) as i64
    };
    proof {
        if n > 0 {
            if sum >= 0 {
                assert((sum as int) / (n as int) <= sum as int) by (nonlinear_arith)
                    requires sum >= 0, n >= 1;
            } else {
                assert((-(sum as int)) / (n as int) <= -(sum as int)) by (nonlinear_arith)
                    requires sum < 0, n >= 1;
            }
        }
    }
    SlackAnalysis { distribution, average_slack_millis: average, total_tasks: n, critical_tasks: critical }
}

impl CriticalPathCalculator {
    /// A calculator over the schedule.
    pub fn new(schedule: ProjectSchedule) -> (c: CriticalPathCalculator)
        ensures
            c.schedule == schedule,
    {
        CriticalPathCalculator { schedule }
    }

    fn build_critical_path(critical: &Vec<&ScheduledTask>) -> (path: Vec<String>)
        ensures
            string_views(path@) == {
                let c = critical@.map_values(|t: &ScheduledTask| *t);
                if c.len() == 0 { Seq::empty() } else { walk(c, seq![c[earliest_from(c, 1, 0)].task_id@], earliest_from(c, 1, 0)) }
            },
    {
        let ghost c = critical@.map_values(|t: &ScheduledTask| *t);
        if critical.len() == 0 {
            let path: Vec<String> = Vec::new();
            assert(string_views(path@) =~= Seq::<Seq<char>>::empty());
            return path;
        }
        let s = earliest_index(critical);
        let mut path: Vec<String> = Vec::new();
        path.push(critical[s].task_id.clone());
        let ghost goal = walk(c, seq![c[s as int].task_id@], s as int);
        assert(string_views(path@) =~= seq![c[s as int].task_id@]);
        let mut cur: usize = s;
        while path.len() < critical.len()
            invariant
                c == critical@.map_values(|t: &ScheduledTask| *t),
                cur < c.len(),
                walk(c, string_views(path@), cur as int) == goal,
            ensures
                string_views(path@) == goal,
            decreases critical.len() - path.len(),
        {
            match next_starting_after(critical, critical[cur].early_finish) {
                None => {
                    break;
                },
                Some(j) => {
                    if strings_contain(&path, critical[j].task_id.as_str()) {
                        break;
                    }
                    let ghost before = string_views(path@);
                    path.push(critical[j].task_id.clone());
                    assert(string_views(path@) =~= before.push(c[j as int].task_id@));
                    cur = j;
                },
            }
        }
        path
    }
}

/// The risk of a critical path: the number of critical tasks against all tasks (their
/// share in percent is `100 * critical_tasks / total_tasks`), the critical tasks with
/// less than a day of slack, the conflicts on critical tasks, and the level.
#[derive(Debug, Clone, PartialEq, Eq)]
pub struct RiskAnalysis {
    pub critical_tasks: usize,
    pub total_tasks: usize,
    pub high_risk_tasks: usize,
    pub resource_conflicts: usize,
    pub overall_risk_level: RiskLevel,
}

fn overall_risk_level(critical: usize, total: usize, high_risk: usize, conflicts: usize) -> (r: RiskLevel)
    requires
        critical <= total,
    ensures
        r == risk_level_for(critical as int, total as int, high_risk as int, conflicts as int),
{
    let c = critical as u128;
    let t = total as u128;
    let a: u8 = if t > 0 && 100 * c > 80 * t {
        3
    } else if t > 0 && 100 * c > 60 * t {
        2
    } else if t > 0 && 100 * c > 40 * t {
        1
    } else {
        0
    };
    let b: u8 = if high_risk > 5 { 3 } else if high_risk > 3 { 2 } else if high_risk > 1 { 1 } else { 0 };
    let k: u8 = if conflicts > 3 { 2 } else if conflicts > 1 { 1 } else { 0 };
    let score = a + b + k;
    if score >= 6 {
        RiskLevel::High
    } else if score >= 3 {
        RiskLevel::Medium
    } else {
        RiskLevel::Low
    }
}

impl CriticalPathCalculator {
    /// The critical path analysis of the schedule: its critical path and critical
    /// tasks, how its total and free slack are spread, its duration, and the time its
    /// critical path spans.
    pub fn calculate_critical_path(&self) -> (r: Result<CriticalPathAnalysis, DomainError>)
        requires
            early_dates_ok(self.schedule.tasks@),
            slack_sums_fit(self.schedule.tasks@, false),
            slack_sums_fit(self.schedule.tasks@, true),
        ensures
            r matches Ok(a) && {
                &&& string_views(a.critical_path@) == critical_path_of(self.schedule.tasks@)
                &&& string_views(a.critical_tasks@) == critical_of(self.schedule.tasks@).map_values(|t: ScheduledTask| t.task_id@)
                &&& analyses(a.total_slack_analysis, self.schedule.tasks@, false)
                &&& analyses(a.free_slack_analysis, self.schedule.tasks@, true)
                &&& a.project_duration == self.schedule.total_duration
                &&& a.critical_path_duration == path_duration(self.schedule.tasks@, critical_path_of(self.schedule.tasks@))
            },
    {
        let critical = self.schedule.get_critical_tasks();
        let ghost c = critical_of(self.schedule.tasks@);
        proof {
            assert(critical@.map_values(|t: &ScheduledTask| *t) =~= c);
        }
        let critical_path = Self::build_critical_path(&critical);
        let mut ids: Vec<String> = Vec::new();
        let mut i: usize = 0;
        while i < critical.len()
            invariant
                0 <= i <= critical@.len(),
                refers_to(critical@, c),
                string_views(ids@) == c.take(i as int).map_values(|t: ScheduledTask| t.task_id@),
            decreases critical.len() - i,
        {
            let ghost before = string_views(ids@);
            ids.push(critical[i].task_id.clone());
            proof {
                assert(string_views(ids@) =~= before.push(c[i as int].task_id@));
                assert(c.take(i as int + 1).map_values(|t: ScheduledTask| t.task_id@)
                    =~= c.take(i as int).map_values(|t: ScheduledTask| t.task_id@).push(c[i as int].task_id@));
            }
            i = i + 1;
        }
        proof {
            assert(c.take(c.len() as int) =~= c);
        }
        let total_slack_analysis = analyze_slack(&self.schedule.tasks, false);
        let free_slack_analysis = analyze_slack(&self.schedule.tasks, true);
        let critical_path_duration = self.calculate_critical_path_duration(&critical_path);
        Ok(CriticalPathAnalysis {
            critical_path,
            critical_tasks: ids,
            total_slack_analysis,
            free_slack_analysis,
            project_duration: self.schedule.total_duration,
            critical_path_duration,
        })
    }

    fn calculate_critical_path_duration(&self, critical_path: &Vec<String>) -> (d: i64)
        requires
            early_dates_ok(self.schedule.tasks@),
        ensures
            d == path_duration(self.schedule.tasks@, string_views(critical_path@)),
    {
        if critical_path.len() == 0 {
            return 0;
        }
        let first = find_task_position(&self.schedule.tasks, critical_path[0].as_str());
        let last = find_task_position(&self.schedule.tasks, critical_path[critical_path.len() - 1].as_str());
        proof {
            assert(string_views(critical_path@)[0] == critical_path@[0]@);
            assert(string_views(critical_path@).last() == critical_path@[critical_path@.len() - 1]@);
        }
        match (first, last) {
            (Some(a), Some(b)) => {
                assert(schedule_time(self.schedule.tasks@[a as int].early_start as int));
                assert(schedule_time(self.schedule.tasks@[b as int].early_finish as int));
                self.schedule.tasks[b].early_finish - self.schedule.tasks[a].early_start
            },
            _ => 0,
        }
    }

    /// The tasks that are not critical, in order.
    pub fn get_non_critical_tasks(&self) -> (r: Vec<&ScheduledTask>)
        ensures
            refers_to(r@, self.schedule.tasks@.filter(|t: ScheduledTask| !t.is_critical)),
    {
        let tasks = &self.schedule.tasks;
        let mut r: Vec<&ScheduledTask> = Vec::new();
        let mut i: usize = 0;
        while i < tasks.len()
            invariant
                0 <= i <= tasks@.len(),
                refers_to(r@, tasks@.take(i as int).filter(|t: ScheduledTask| !t.is_critical)),
            decreases tasks.len() - i,
        {
            proof {
                let before = tasks@.take(i as int);
                assert(tasks@.take(i as int + 1) =~= before.push(tasks@[i as int]));
                reveal(Seq::filter);
                assert(before.push(tasks@[i as int]).drop_last() =~= before);
            }
            if !tasks[i].is_critical {
                r.push(&tasks[i]);
            }
            i = i + 1;
        }
        proof {
            assert(tasks@.take(tasks@.len() as int) =~= tasks@);
        }
        r
    }

    /// The tasks with at least `threshold_days` whole days of total slack, in order.
    pub fn get_high_slack_tasks(&self, threshold_days: i64) -> (r: Vec<&ScheduledTask>)
        ensures
            refers_to(r@, high_slack_of(self.schedule.tasks@, threshold_days as int)),
    {
        let tasks = &self.schedule.tasks;
        let mut r: Vec<&ScheduledTask> = Vec::new();
        let mut i: usize = 0;
        while i < tasks.len()
            invariant
                0 <= i <= tasks@.len(),
                refers_to(r@, high_slack_of(tasks@.take(i as int), threshold_days as int)),
            decreases tasks.len() - i,
        {
            proof {
                let before = tasks@.take(i as int);
                assert(tasks@.take(i as int + 1) =~= before.push(tasks@[i as int]));
                reveal(Seq::filter);
                assert(before.push(tasks@[i as int]).drop_last() =~= before);
            }
            if num_days(tasks[i].total_slack) >= threshold_days {
                r.push(&tasks[i]);
            }
            i = i + 1;
        }
        proof {
            assert(tasks@.take(tasks@.len() as int) =~= tasks@);
        }
        r
    }

    /// What delaying a task by `delay_days` days does: nothing for a task that is not
    /// in the schedule; the same delay of the project for a critical task; none for
    /// another task within its slack, and the excess beyond its slack otherwise.
    pub fn calculate_delay_impact(&self, task_id: &str, delay_days: i64) -> (r: DelayImpact)
        requires
            -MAX_DURATION_DAYS <= delay_days <= MAX_DURATION_DAYS,
        ensures
            match find_scheduled(self.schedule.tasks@, task_id@) {
                None => r == DelayImpact::TaskNotFound,
                Some(k) => {
                    let t = self.schedule.tasks@[k];
                    if t.is_critical {
                        r matches DelayImpact::CriticalTaskDelay { project_delay_days, affected_tasks }
                            && project_delay_days == delay_days && affected_tasks@.len() == 0
                    } else if delay_days <= whole_days(t.total_slack as int) {
                        r == DelayImpact::NoImpact
                    } else {
                        r matches DelayImpact::NonCriticalDelay { excess_delay_days, affected_tasks }
                            && excess_delay_days == delay_days - whole_days(t.total_slack as int)
                            && affected_tasks@.len() == 0
                    }
                },
            },
    {
        let task = match self.schedule.get_task(task_id) {
            Some(task) => task,
            None => return DelayImpact::TaskNotFound,
        };
        if task.is_critical {
            return DelayImpact::CriticalTaskDelay { project_delay_days: delay_days, affected_tasks: Vec::new() };
        }
        let max_slack = num_days(task.total_slack);
        if delay_days <= max_slack {
            DelayImpact::NoImpact
        } else {
            DelayImpact::NonCriticalDelay { excess_delay_days: delay_days - max_slack, affected_tasks: Vec::new() }
        }
    }

    fn count_critical_conflicts(&self) -> (n: usize)
        ensures
            n == critical_conflict_count(self.schedule.tasks@, self.schedule.conflicts@),
    {
        let conflicts = &self.schedule.conflicts;
        let mut n: usize = 0;
        let mut i: usize = 0;
        while i < conflicts.len()
            invariant
                0 <= i <= conflicts@.len(),
                n == critical_conflict_count(self.schedule.tasks@, conflicts@.take(i as int)),
                n <= i,
            decreases conflicts.len() - i,
        {
            proof {
                assert(conflicts@.take(i as int + 1).drop_last() =~= conflicts@.take(i as int));
            }
            let ids = &conflicts[i].conflicting_tasks;
            let mut hit = false;
            let mut j: usize = 0;
            while j < ids.len()
                invariant
                    0 <= j <= ids@.len(),
                    ids@ == conflicts@[i as int].conflicting_tasks@,
                    hit == exists|q: int| 0 <= q < j && #[trigger] is_critical_id(self.schedule.tasks@, ids@[q]@),
                decreases ids.len() - j,
            {
                let ghost h0 = hit;
                let found = match self.schedule.get_task(ids[j].as_str()) {
                    Some(t) => t.is_critical,
                    None => false,
                };
                assert(found == is_critical_id(self.schedule.tasks@, ids@[j as int]@));
                if found {
                    hit = true;
                }
                proof {
                    if found {
                        assert(is_critical_id(self.schedule.tasks@, ids@[j as int]@));
                    }
                    if h0 {
                        let q0 = choose|q: int| 0 <= q < j && #[trigger] is_critical_id(self.schedule.tasks@, ids@[q]@);
                        assert(is_critical_id(self.schedule.tasks@, ids@[q0]@));
                    }
                }
                j = j + 1;
            }
            if hit {
                n = n + 1;
            }
            i = i + 1;
        }
        proof {
            assert(conflicts@.take(conflicts@.len() as int) =~= conflicts@);
        }
        n
    }

    /// Suggestions to shorten the schedule: delaying the tasks with a week or more of
    /// slack, and resolving the conflicts on critical tasks.
    pub fn suggest_optimizations(&self) -> (r: Vec<OptimizationSuggestion>)
        ensures
            r@ == suggestions_for(self.schedule.tasks@, self.schedule.conflicts@),
    {
        let mut suggestions: Vec<OptimizationSuggestion> = Vec::new();
        let high = self.get_high_slack_tasks(7);
        let ghost hs = high_slack_of(self.schedule.tasks@, 7);
        if high.len() > 0 {
            let mut most: i64 = num_days(high[0].total_slack);
            let mut i: usize = 1;
            while i < high.len()
                invariant
                    1 <= i <= high@.len(),
                    refers_to(high@, hs),
                    most == most_slack_days(hs.take(i as int)),
                decreases high.len() - i,
            {
                proof {
                    assert(hs.take(i as int + 1).drop_last() =~= hs.take(i as int));
                }
                let d = num_days(high[i].total_slack);
                if d > most {
                    most = d;
                }
                i = i + 1;
            }
            proof {
                assert(hs.take(hs.len() as int) =~= hs);
            }
            suggestions.push(OptimizationSuggestion::DelayNonCriticalTasks {
                task_count: high.len(),
                potential_savings_days: most,
            });
        }
        let n = self.count_critical_conflicts();
        if n > 0 {
            suggestions.push(OptimizationSuggestion::ResolveCriticalConflicts { conflict_count: n });
        }
        proof {
            assert(suggestions@ =~= suggestions_for(self.schedule.tasks@, self.schedule.conflicts@));
        }
        suggestions
    }

    /// The risk of the critical path.
    pub fn analyze_risk_factors(&self) -> (r: RiskAnalysis)
        ensures
            r.critical_tasks == count_critical(self.schedule.tasks@),
            r.total_tasks == self.schedule.tasks@.len(),
            r.high_risk_tasks == tight_critical_of(self.schedule.tasks@).len(),
            r.resource_conflicts == critical_conflict_count(self.schedule.tasks@, self.schedule.conflicts@),
            r.overall_risk_level == risk_level_for(
                r.critical_tasks as int,
                r.total_tasks as int,
                r.high_risk_tasks as int,
                r.resource_conflicts as int,
            ),
    {
        let critical = self.schedule.get_critical_tasks();
        let ghost c = critical_of(self.schedule.tasks@);
        let mut high_risk: usize = 0;
        let mut i: usize = 0;
        while i < critical.len()
            invariant
                0 <= i <= critical@.len(),
                refers_to(critical@, c),
                high_risk == c.take(i as int).filter(|t: ScheduledTask| whole_hours(t.total_slack as int) < 24).len(),
                high_risk <= i,
            decreases critical.len() - i,
        {
            proof {
                let before = c.take(i as int);
                assert(c.take(i as int + 1) =~= before.push(c[i as int]));
                reveal(Seq::filter);
                assert(before.push(c[i as int]).drop_last() =~= before);
            }
            if num_hours(critical[i].total_slack) < 24 {
                high_risk = high_risk + 1;
            }
            i = i + 1;
        }
        proof {
            assert(c.take(c.len() as int) =~= c);
            self.schedule.tasks@.filter_lemma(|t: ScheduledTask| t.is_critical);
        }
        let conflicts = self.count_critical_conflicts();
        let total = self.schedule.tasks.len();
        let level = overall_risk_level(critical.len(), total, high_risk, conflicts);
        RiskAnalysis {
            critical_tasks: critical.len(),
            total_tasks: total,
            high_risk_tasks: high_risk,
            resource_conflicts: conflicts,
            overall_risk_level: level,
        }
    }
}

/// The identifiers of tasks, in order.
pub open spec fn ids_of(c: Seq<ScheduledTask>) -> Seq<Seq<char>> {
    c.map_values(|t: ScheduledTask| t.task_id@)
}

/// Following the chain keeps it free of repeats and made of the tasks' identifiers,
/// and keeps what it started with.
pub proof fn lemma_walk(c: Seq<ScheduledTask>, path: Seq<Seq<char>>, cur: int)
    requires
        path.no_duplicates(),
        forall|i: int| 0 <= i < path.len() ==> ids_of(c).contains(#[trigger] path[i]),
    ensures
        walk(c, path, cur).no_duplicates(),
        forall|i: int| 0 <= i < walk(c, path, cur).len() ==> ids_of(c).contains(#[trigger] walk(c, path, cur)[i]),
        walk(c, path, cur).len() >= path.len(),
        walk(c, path, cur).take(path.len() as int) == path,
    decreases c.len() - path.len(),
{
    if path.len() >= c.len() || cur < 0 || cur >= c.len() {
        assert(path.take(path.len() as int) =~= path);
    } else {
        match starting_after_from(c, c[cur].early_finish, 0) {
            None => {
                assert(path.take(path.len() as int) =~= path);
            },
            Some(j) => {
                if path.contains(c[j].task_id@) {
                    assert(path.take(path.len() as int) =~= path);
                } else {
                    lemma_starting_after_from(c, c[cur].early_finish, 0);
                    let next = path.push(c[j].task_id@);
                    assert(ids_of(c)[j] == c[j].task_id@);
                    assert forall|i: int| 0 <= i < next.len() implies ids_of(c).contains(#[trigger] next[i]) by {
                        if i < path.len() {
                            assert(next[i] == path[i]);
                        }
                    }
                    assert forall|a: int, b: int| 0 <= a < next.len() && 0 <= b < next.len() && a != b implies next[a] != next[b] by {
                        if a < path.len() && b < path.len() {
                            assert(next[a] == path[a] && next[b] == path[b]);
                        } else if a < path.len() {
                            assert(next[a] == path[a]);
                        } else if b < path.len() {
                            assert(next[b] == path[b]);
                        }
                    }
                    lemma_walk(c, next, j);
                    let r = walk(c, next, j);
                    assert(r.take(next.len() as int).take(path.len() as int) =~= r.take(path.len() as int));
                    assert(next.take(path.len() as int) =~= path);
                }
            },
        }
    }
}

/// The first task from `i` on that starts no earlier than `finish` is a task.
pub proof fn lemma_starting_after_from(c: Seq<ScheduledTask>, finish: i64, i: int)
    requires
        0 <= i <= c.len(),
    ensures
        starting_after_from(c, finish, i) matches Some(j) ==> i <= j < c.len() && c[j].early_start >= finish,
    decreases c.len() - i,
{
    if i < c.len() {
        lemma_starting_after_from(c, finish, i + 1);
    }
}

/// A chain without repeats, made of the identifiers of the tasks, that is as long as
/// the tasks holds every one of their identifiers.
pub proof fn lemma_full_chain(c: Seq<ScheduledTask>, p: Seq<Seq<char>>)
    requires
        p.no_duplicates(),
        forall|i: int| 0 <= i < p.len() ==> ids_of(c).contains(#[trigger] p[i]),
        p.len() >= c.len(),
    ensures
        forall|k: int| 0 <= k < c.len() ==> p.contains(#[trigger] c[k].task_id@),
{
    broadcast use vstd::seq_lib::seq_to_set_is_finite;
    let ps = p.to_set();
    let is = ids_of(c).to_set();
    p.unique_seq_to_set();
    ids_of(c).lemma_cardinality_of_set();
    assert(ps.subset_of(is)) by {
        assert forall|x: Seq<char>| ps.contains(x) implies is.contains(x) by {
            let i = choose|i: int| 0 <= i < p.len() && p[i] == x;
            assert(ids_of(c).contains(p[i]));
        }
    }
    vstd::set_lib::lemma_len_subset(ps, is);
    vstd::set_lib::lemma_subset_equality(ps, is);
    assert forall|k: int| 0 <= k < c.len() implies p.contains(#[trigger] c[k].task_id@) by {
        assert(ids_of(c)[k] == c[k].task_id@);
        assert(is.contains(c[k].task_id@));
    }
}

/// The shape of a critical path: it holds critical tasks only, each once; it starts
/// with the first critical task of smallest early start; and it is never cut short:
/// one as long as the list of critical tasks holds every one of them, so the chain
/// always ends where no critical task follows or the next one is already on it.
pub proof fn lemma_critical_path_shape(tasks: Seq<ScheduledTask>)
    ensures
        critical_path_of(tasks).no_duplicates(),
        forall|i: int| 0 <= i < critical_path_of(tasks).len()
            ==> ids_of(critical_of(tasks)).contains(#[trigger] critical_path_of(tasks)[i]),
        critical_of(tasks).len() > 0 ==> critical_path_of(tasks).len() >= 1
            && critical_path_of(tasks)[0] == critical_of(tasks)[earliest_from(critical_of(tasks), 1, 0)].task_id@,
        critical_path_of(tasks).len() >= critical_of(tasks).len() ==> forall|k: int| 0 <= k < critical_of(tasks).len()
            ==> critical_path_of(tasks).contains(#[trigger] critical_of(tasks)[k].task_id@),
{
    let c = critical_of(tasks);
    if c.len() > 0 {
        let s = earliest_from(c, 1, 0);
        lemma_earliest_from(c, 1, 0);
        let start = seq![c[s].task_id@];
        assert(ids_of(c)[s] == c[s].task_id@);
        assert forall|i: int| 0 <= i < start.len() implies ids_of(c).contains(#[trigger] start[i]) by {
            assert(start[i] == c[s].task_id@);
        }
        lemma_walk(c, start, s);
        let p = walk(c, start, s);
        assert(p.take(1)[0] == p[0]);
        if p.len() >= c.len() {
            lemma_full_chain(c, p);
        }
    }
}

/// The task found as the earliest is one of the tasks.
pub proof fn lemma_earliest_from(c: Seq<ScheduledTask>, i: int, best: int)
    requires
        0 <= best < c.len(),
        0 <= i,
    ensures
        0 <= earliest_from(c, i, best) < c.len(),
    decreases c.len() - i,
{
    if i < c.len() {
        if c[i].early_start < c[best].early_start {
            lemma_earliest_from(c, i + 1, i);
        } else {
            lemma_earliest_from(c, i + 1, best);
        }
    }
}

} // verus!
