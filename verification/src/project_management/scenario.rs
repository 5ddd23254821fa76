//! Scenarios of a project (baseline, current, what-if, historical) and the
//! comparison of two scenarios.

use vstd::prelude::*;
use crate::dates::Date;
use crate::project_management::advanced_dependencies::now_millis;
use crate::text::{decimal, join_strings, joined, signed_decimal, str_eq, i64_to_text, usize_to_text, views};

verus! {

/// The kind of a scenario.
#[derive(Debug, Clone, Copy, PartialEq, Eq, Structural)]
pub enum ScenarioType {
    Baseline,
    Current,
    WhatIf,
    Historical,
}

/// The readable name of a kind of scenario.
pub open spec fn scenario_type_text(t: ScenarioType) -> Seq<char> {
    match t {
        ScenarioType::Baseline => "Baseline"@,
        ScenarioType::Current => "Current"@,
        ScenarioType::WhatIf => "What-If"@,
        ScenarioType::Historical => "Historical"@,
    }
}

impl ScenarioType {
    /// The readable name of the kind.
    pub fn to_string(&self) -> (s: String)
        ensures
            s@ == scenario_type_text(*self),
    {
        let t = match self {
            ScenarioType::Baseline => "Baseline",
            ScenarioType::Current => "Current",
            ScenarioType::WhatIf => "What-If",
            ScenarioType::Historical => "Historical",
        };
        String::from_str(t)
    }
}

/// A task as a scenario plans it. Metadata are (key, value) pairs.
#[derive(Debug, Clone)]
pub struct TaskScenario {
    pub task_id: String,
    pub task_code: String,
    pub task_name: String,
    pub status: String,
    pub priority: String,
    pub start_date: Option<Date>,
    pub end_date: Option<Date>,
    pub actual_start_date: Option<Date>,
    pub actual_end_date: Option<Date>,
    pub dependencies: Vec<String>,
    pub resource_assignments: Vec<String>,
    pub metadata: Vec<(String, String)>,
}

/// An assignment of a resource as a scenario plans it.
#[derive(Debug, Clone)]
pub struct ResourceAssignmentScenario {
    pub assignment_id: String,
    pub resource_id: String,
    pub task_id: String,
    pub allocation_percentage: u8,
    pub start_date: Option<Date>,
    pub end_date: Option<Date>,
    pub metadata: Vec<(String, String)>,
}

/// A scenario of a project: its dates, state, tasks and resource assignments. Tasks
/// are listed in order and found by their identifier; so are assignments.
#[derive(Debug, Clone)]
pub struct ProjectScenario {
    pub id: String,
    pub name: String,
    pub description: Option<String>,
    pub scenario_type: ScenarioType,
    pub project_id: String,
    pub project_code: String,
    pub project_name: String,
    pub status: String,
    pub priority: String,
    pub start_date: Option<Date>,
    pub end_date: Option<Date>,
    pub actual_start_date: Option<Date>,
    pub actual_end_date: Option<Date>,
    pub tasks: Vec<TaskScenario>,
    pub resource_assignments: Vec<ResourceAssignmentScenario>,
    /// Milliseconds since the Unix epoch.
    pub created_at: i64,
    pub created_by: String,
    pub metadata: Vec<(String, String)>,
}

/// The comparison of two scenarios: how the second differs from the first.
#[derive(Debug, Clone, PartialEq, Eq)]
pub struct ScenarioComparison {
    pub scenario1_id: String,
    pub scenario1_name: String,
    pub scenario2_id: String,
    pub scenario2_name: String,
    pub start_date_difference: Option<i32>,
    pub end_date_difference: Option<i32>,
    pub duration_difference: Option<i32>,
    pub status_different: bool,
    pub priority_different: bool,
    pub task_count_difference: i32,
    pub new_tasks: Vec<String>,
    pub removed_tasks: Vec<String>,
    pub modified_tasks: Vec<String>,
    pub resource_assignment_differences: i32,
    pub is_delayed: bool,
    pub delay_days: Option<i32>,
    pub is_ahead_of_schedule: bool,
    pub ahead_days: Option<i32>,
}

// ============================================================================
// MODEL OF A COMPARISON
// ============================================================================

/// The difference in days from `a` to `b`, where both dates are known.
pub open spec fn day_difference(a: Option<Date>, b: Option<Date>) -> Option<int> {
    match (a, b) {
        (Some(x), Some(y)) => Some(y.day() - x.day()),
        _ => None,
    }
}

/// The number of days from the start to the end of a scenario, where both are known.
pub open spec fn planned_days(s: ProjectScenario) -> Option<int> {
    day_difference(s.start_date, s.end_date)
}

/// The first task of a list with the identifier.
pub open spec fn find_task(ts: Seq<TaskScenario>, id: Seq<char>) -> Option<TaskScenario>
    decreases ts.len(),
{
    if ts.len() == 0 {
        None
    } else if ts[0].task_id@ == id {
        Some(ts[0])
    } else {
        find_task(ts.skip(1), id)
    }
}

/// Whether two plans of a task differ in state or dates.
pub open spec fn task_changed(a: TaskScenario, b: TaskScenario) -> bool {
    a.status@ != b.status@ || a.start_date != b.start_date || a.end_date != b.end_date
}

/// The identifiers of the tasks, among the first `k` of `t2`, that `t1` lacks.
pub open spec fn new_task_ids(t1: Seq<TaskScenario>, t2: Seq<TaskScenario>, k: int) -> Seq<Seq<char>>
    decreases k,
{
    if k <= 0 {
        Seq::empty()
    } else if find_task(t1, t2[k - 1].task_id@) is None {
        new_task_ids(t1, t2, k - 1).push(t2[k - 1].task_id@)
    } else {
        new_task_ids(t1, t2, k - 1)
    }
}

/// The identifiers of the tasks, among the first `k` of `t2`, that `t1` plans otherwise.
pub open spec fn modified_task_ids(t1: Seq<TaskScenario>, t2: Seq<TaskScenario>, k: int) -> Seq<Seq<char>>
    decreases k,
{
    if k <= 0 {
        Seq::empty()
    } else {
        let t = t2[k - 1];
        match find_task(t1, t.task_id@) {
            Some(old) => if task_changed(old, t) {
                modified_task_ids(t1, t2, k - 1).push(t.task_id@)
            } else {
                modified_task_ids(t1, t2, k - 1)
            },
            None => modified_task_ids(t1, t2, k - 1),
        }
    }
}

/// The identifiers of the tasks, in order.
pub open spec fn task_ids(ts: Seq<TaskScenario>) -> Seq<Seq<char>> {
    ts.map_values(|t: TaskScenario| t.task_id@)
}

/// Whether no identifier occurs twice.
pub open spec fn no_repeats(ids: Seq<Seq<char>>) -> bool {
    forall|i: int, j: int| 0 <= i < j < ids.len() ==> #[trigger] ids[i] != #[trigger] ids[j]
}

/// A task is found under an identifier exactly when some task has it, and the task
/// found has it.
proof fn lemma_find_task(ts: Seq<TaskScenario>, id: Seq<char>)
    ensures
        (find_task(ts, id) is Some) == task_ids(ts).contains(id),
        find_task(ts, id) matches Some(t) ==> t.task_id@ == id,
    decreases ts.len(),
{
    if ts.len() > 0 {
        lemma_find_task(ts.skip(1), id);
        assert(task_ids(ts.skip(1)) =~= task_ids(ts).skip(1));
        if ts[0].task_id@ != id {
            if task_ids(ts).contains(id) {
                let k = choose|k: int| 0 <= k < task_ids(ts).len() && task_ids(ts)[k] == id;
                assert(k > 0);
                assert(task_ids(ts).skip(1)[k - 1] == id);
            }
        } else {
            assert(task_ids(ts)[0] == id);
        }
    }
}

proof fn lemma_push_contains(s: Seq<Seq<char>>, v: Seq<char>, x: Seq<char>)
    ensures
        s.push(v).contains(x) == (s.contains(x) || x == v),
{
    if s.push(v).contains(x) {
        let i = choose|i: int| 0 <= i < s.push(v).len() && s.push(v)[i] == x;
        if i < s.len() {
            assert(s[i] == x);
        }
    }
    if s.contains(x) {
        let i = choose|i: int| 0 <= i < s.len() && s[i] == x;
        assert(s.push(v)[i] == x);
    }
    if x == v {
        assert(s.push(v)[s.len() as int] == x);
    }
}

proof fn lemma_push_no_repeats(s: Seq<Seq<char>>, v: Seq<char>)
    requires
        no_repeats(s),
        !s.contains(v),
    ensures
        no_repeats(s.push(v)),
{
    assert forall|i: int, j: int| 0 <= i < j < s.push(v).len() implies #[trigger] s.push(v)[i] != #[trigger] s.push(v)[j] by {
        if j == s.len() {
            assert(s.contains(s[i]));
        } else {
            assert(s.push(v)[i] == s[i] && s.push(v)[j] == s[j]);
        }
    }
}

/// The identifiers among the first `k` tasks are those among the first `k - 1` and the
/// identifier of task `k - 1`, which, ids being distinct, is not among the first.
proof fn lemma_prefix_ids(t2: Seq<TaskScenario>, k: int)
    requires
        0 < k <= t2.len(),
        scenario_task_ids_unique(t2),
    ensures
        task_ids(t2).take(k) == task_ids(t2).take(k - 1).push(t2[k - 1].task_id@),
        !task_ids(t2).take(k - 1).contains(t2[k - 1].task_id@),
{
    assert(task_ids(t2).take(k) =~= task_ids(t2).take(k - 1).push(t2[k - 1].task_id@));
    let pre = task_ids(t2).take(k - 1);
    if pre.contains(t2[k - 1].task_id@) {
        let j = choose|j: int| 0 <= j < pre.len() && pre[j] == t2[k - 1].task_id@;
        assert(t2[j].task_id@ == t2[k - 1].task_id@);
    }
}

proof fn lemma_new_ids_prefix(t1: Seq<TaskScenario>, t2: Seq<TaskScenario>, k: int)
    requires
        0 <= k <= t2.len(),
        scenario_task_ids_unique(t2),
    ensures
        no_repeats(new_task_ids(t1, t2, k)),
        forall|x: Seq<char>| #[trigger] new_task_ids(t1, t2, k).contains(x)
            <==> task_ids(t2).take(k).contains(x) && !task_ids(t1).contains(x),
    decreases k,
{
    if k > 0 {
        lemma_new_ids_prefix(t1, t2, k - 1);
        lemma_prefix_ids(t2, k);
        let prev = new_task_ids(t1, t2, k - 1);
        let pre = task_ids(t2).take(k - 1);
        let x0 = t2[k - 1].task_id@;
        lemma_find_task(t1, x0);
        if find_task(t1, x0) is None {
            lemma_push_no_repeats(prev, x0);
        }
        assert forall|x: Seq<char>| #[trigger] new_task_ids(t1, t2, k).contains(x)
            <==> task_ids(t2).take(k).contains(x) && !task_ids(t1).contains(x) by {
            lemma_push_contains(prev, x0, x);
            lemma_push_contains(pre, x0, x);
        }
    } else {
        assert(task_ids(t2).take(0) =~= Seq::<Seq<char>>::empty());
    }
}

proof fn lemma_modified_ids_prefix(t1: Seq<TaskScenario>, t2: Seq<TaskScenario>, k: int)
    requires
        0 <= k <= t2.len(),
        scenario_task_ids_unique(t2),
    ensures
        no_repeats(modified_task_ids(t1, t2, k)),
        forall|x: Seq<char>| #[trigger] modified_task_ids(t1, t2, k).contains(x) ==> task_ids(t2).take(k).contains(x),
        forall|j: int| 0 <= j < k ==> (modified_task_ids(t1, t2, k).contains(#[trigger] t2[j].task_id@) <==> (
            find_task(t1, t2[j].task_id@) matches Some(o) && (o.status@ != t2[j].status@ || o.start_date != t2[j].start_date || o.end_date != t2[j].end_date))),
    decreases k,
{
    if k > 0 {
        lemma_modified_ids_prefix(t1, t2, k - 1);
        lemma_prefix_ids(t2, k);
        let prev = modified_task_ids(t1, t2, k - 1);
        let pre = task_ids(t2).take(k - 1);
        let t = t2[k - 1];
        let x0 = t.task_id@;
        let added = find_task(t1, x0) matches Some(o) && task_changed(o, t);
        assert(!prev.contains(x0));
        if added {
            lemma_push_no_repeats(prev, x0);
        }
        assert forall|x: Seq<char>| #[trigger] modified_task_ids(t1, t2, k).contains(x) implies task_ids(t2).take(k).contains(x) by {
            lemma_push_contains(prev, x0, x);
            lemma_push_contains(pre, x0, x);
        }
        assert forall|j: int| 0 <= j < k implies (modified_task_ids(t1, t2, k).contains(#[trigger] t2[j].task_id@) <==> (
            find_task(t1, t2[j].task_id@) matches Some(o) && (o.status@ != t2[j].status@ || o.start_date != t2[j].start_date || o.end_date != t2[j].end_date))) by {
            lemma_push_contains(prev, x0, t2[j].task_id@);
            if j < k - 1 {
                assert(t2[j].task_id@ != x0);
            }
        }
    }
}

/// Law: where the tasks of each scenario have distinct identifiers, as a scenario
/// keeps them, the comparison lists no identifier twice; the new tasks are exactly
/// the identifiers of the second scenario that the first lacks, the removed ones those
/// of the first that the second lacks, and a task of the second is modified exactly
/// when the first plans it with another state, another start date or another end date.
pub proof fn lemma_comparison_lists(t1: Seq<TaskScenario>, t2: Seq<TaskScenario>)
    requires
        scenario_task_ids_unique(t1),
        scenario_task_ids_unique(t2),
    ensures
        no_repeats(new_task_ids(t1, t2, t2.len() as int)),
        no_repeats(new_task_ids(t2, t1, t1.len() as int)),
        no_repeats(modified_task_ids(t1, t2, t2.len() as int)),
        forall|x: Seq<char>| new_task_ids(t1, t2, t2.len() as int).contains(x)
            <==> task_ids(t2).contains(x) && !task_ids(t1).contains(x),
        forall|x: Seq<char>| new_task_ids(t2, t1, t1.len() as int).contains(x)
            <==> task_ids(t1).contains(x) && !task_ids(t2).contains(x),
        forall|x: Seq<char>| modified_task_ids(t1, t2, t2.len() as int).contains(x) ==> task_ids(t2).contains(x),
        forall|j: int| 0 <= j < t2.len() ==> (modified_task_ids(t1, t2, t2.len() as int).contains(#[trigger] t2[j].task_id@)
            <==> (find_task(t1, t2[j].task_id@) matches Some(o) && (o.status@ != t2[j].status@ || o.start_date != t2[j].start_date || o.end_date != t2[j].end_date))),
{
    lemma_new_ids_prefix(t1, t2, t2.len() as int);
    lemma_new_ids_prefix(t2, t1, t1.len() as int);
    lemma_modified_ids_prefix(t1, t2, t2.len() as int);
    assert(task_ids(t2).take(t2.len() as int) =~= task_ids(t2));
    assert(task_ids(t1).take(t1.len() as int) =~= task_ids(t1));
}

/// The comparison that `ScenarioComparison::new` makes of two scenarios.
pub open spec fn compared(c: ScenarioComparison, s1: ProjectScenario, s2: ProjectScenario) -> bool {
    let end_diff = day_difference(s1.end_date, s2.end_date);
    &&& c.scenario1_id@ == s1.id@ && c.scenario1_name@ == s1.name@
    &&& c.scenario2_id@ == s2.id@ && c.scenario2_name@ == s2.name@
    &&& match day_difference(s1.start_date, s2.start_date) {
        Some(d) => c.start_date_difference == Some(d as i32),
        None => c.start_date_difference is None,
    }
    &&& match end_diff {
        Some(d) => c.end_date_difference == Some(d as i32),
        None => c.end_date_difference is None,
    }
    &&& match (planned_days(s1), planned_days(s2)) {
        (Some(d1), Some(d2)) => c.duration_difference == Some((d2 - d1) as i32),
        _ => c.duration_difference is None,
    }
    &&& c.status_different == (s1.status@ != s2.status@)
    &&& c.priority_different == (s1.priority@ != s2.priority@)
    &&& c.task_count_difference == s2.tasks@.len() - s1.tasks@.len()
    &&& views(c.new_tasks@) == new_task_ids(s1.tasks@, s2.tasks@, s2.tasks@.len() as int)
    &&& views(c.removed_tasks@) == new_task_ids(s2.tasks@, s1.tasks@, s1.tasks@.len() as int)
    &&& views(c.modified_tasks@) == modified_task_ids(s1.tasks@, s2.tasks@, s2.tasks@.len() as int)
    &&& c.resource_assignment_differences == s2.resource_assignments@.len() - s1.resource_assignments@.len()
    &&& c.is_delayed == (end_diff matches Some(d) && d > 0)
    &&& match end_diff {
        Some(d) => if d > 0 { c.delay_days == Some(d as i32) } else { c.delay_days is None },
        None => c.delay_days is None,
    }
    &&& c.is_ahead_of_schedule == (end_diff matches Some(d) && d < 0)
    &&& match end_diff {
        Some(d) => if d < 0 { c.ahead_days == Some((-d) as i32) } else { c.ahead_days is None },
        None => c.ahead_days is None,
    }
}

/// Whether a scenario's dates lie in range.
pub open spec fn scenario_dates_wf(s: ProjectScenario) -> bool {
    &&& s.start_date matches Some(d) ==> d.wf()
    &&& s.end_date matches Some(d) ==> d.wf()
    &&& forall|i: int| 0 <= i < s.tasks@.len() ==> {
        &&& (#[trigger] s.tasks@[i]).start_date matches Some(d) ==> d.wf()
        &&& s.tasks@[i].end_date matches Some(d) ==> d.wf()
    }
}

/// The part of the summary that a day difference adds.
pub open spec fn date_part(diff: Option<i32>, what: Seq<char>) -> Seq<Seq<char>> {
    match diff {
        Some(d) => if d > 0 {
            seq![what + " "@ + decimal(d as nat) + " days later"@]
        } else if d < 0 {
            seq![what + " "@ + decimal((-d) as nat) + " days earlier"@]
        } else {
            Seq::empty()
        },
        None => Seq::empty(),
    }
}

/// The parts of the summary of a comparison, in order.
pub open spec fn summary_parts(c: ScenarioComparison) -> Seq<Seq<char>> {
    date_part(c.start_date_difference, "Started"@) + date_part(c.end_date_difference, "Ends"@)
        + (if c.task_count_difference > 0 {
        seq!["Added "@ + decimal(c.task_count_difference as nat) + " tasks"@]
    } else if c.task_count_difference < 0 {
        seq!["Removed "@ + decimal((-c.task_count_difference) as nat) + " tasks"@]
    } else {
        Seq::empty()
    }) + (if c.new_tasks@.len() > 0 {
        seq![decimal(c.new_tasks@.len()) + " new tasks"@]
    } else {
        Seq::empty()
    }) + (if c.removed_tasks@.len() > 0 {
        seq![decimal(c.removed_tasks@.len()) + " removed tasks"@]
    } else {
        Seq::empty()
    }) + (if c.modified_tasks@.len() > 0 {
        seq![decimal(c.modified_tasks@.len()) + " modified tasks"@]
    } else {
        Seq::empty()
    })
}

/// The summary of a comparison: its parts joined by commas, or a note that nothing changed.
pub open spec fn summary_text(c: ScenarioComparison) -> Seq<char> {
    if summary_parts(c).len() == 0 {
        "No significant changes"@
    } else {
        joined(summary_parts(c), ", "@)
    }
}

proof fn lemma_find_task_at(ts: Seq<TaskScenario>, id: Seq<char>, i: int)
    requires
        0 <= i < ts.len(),
        ts[i].task_id@ == id,
        forall|j: int| 0 <= j < i ==> ts[j].task_id@ != id,
    ensures
        find_task(ts, id) == Some(ts[i]),
    decreases i,
{
    if i > 0 {
        assert forall|j: int| 0 <= j < i - 1 implies ts.skip(1)[j].task_id@ != id by {
            assert(ts.skip(1)[j] == ts[j + 1]);
        }
        lemma_find_task_at(ts.skip(1), id, i - 1);
    }
}

proof fn lemma_find_task_none(ts: Seq<TaskScenario>, id: Seq<char>)
    requires
        forall|j: int| 0 <= j < ts.len() ==> ts[j].task_id@ != id,
    ensures
        find_task(ts, id) is None,
    decreases ts.len(),
{
    if ts.len() > 0 {
        assert forall|j: int| 0 <= j < ts.len() - 1 implies ts.skip(1)[j].task_id@ != id by {
            assert(ts.skip(1)[j] == ts[j + 1]);
        }
        lemma_find_task_none(ts.skip(1), id);
    }
}

/// The position of the first task with the identifier.
fn find_task_index(ts: &Vec<TaskScenario>, id: &str) -> (r: Option<usize>)
    ensures
        match r {
            Some(i) => i < ts@.len() && find_task(ts@, id@) == Some(ts@[i as int]),
            None => find_task(ts@, id@) is None,
        },
{
    let mut i: usize = 0;
    while i < ts.len()
        invariant
            0 <= i <= ts.len(),
            forall|j: int| 0 <= j < i ==> ts@[j].task_id@ != id@,
        decreases ts.len() - i,
    {
        if str_eq(ts[i].task_id.as_str(), id) {
            proof {
                lemma_find_task_at(ts@, id@, i as int);
            }
            return Some(i);
        }
        i = i + 1;
    }
    proof {
        lemma_find_task_none(ts@, id@);
    }
    None
}

/// Whether two optional dates are the same.
fn same_date(a: Option<Date>, b: Option<Date>) -> (r: bool)
    ensures
        r == (a == b),
{
    match (a, b) {
        (Some(x), Some(y)) => {
            if x.day_number() == y.day_number() {
                proof {
                    x.lemma_same_day(y);
                }
                true
            } else {
                false
            }
        },
        (None, None) => true,
        _ => false,
    }
}

/// The identifiers of the tasks of `t2` that `t1` lacks, in the order of `t2`.
fn missing_tasks(t1: &Vec<TaskScenario>, t2: &Vec<TaskScenario>) -> (r: Vec<String>)
    ensures
        views(r@) == new_task_ids(t1@, t2@, t2@.len() as int),
{
    let mut r: Vec<String> = Vec::new();
    let mut k: usize = 0;
    while k < t2.len()
        invariant
            0 <= k <= t2.len(),
            views(r@) == new_task_ids(t1@, t2@, k as int),
        decreases t2.len() - k,
    {
        let ghost before = r@;
        match find_task_index(t1, t2[k].task_id.as_str()) {
            None => {
                r.push(t2[k].task_id.clone());
                proof {
                    assert(views(r@) =~= views(before).push(t2@[k as int].task_id@));
                }
            },
            Some(_) => {},
        }
        k = k + 1;
    }
    r
}

/// The identifiers of the tasks of `t2` that `t1` plans otherwise, in the order of `t2`.
fn changed_tasks(t1: &Vec<TaskScenario>, t2: &Vec<TaskScenario>) -> (r: Vec<String>)
    requires
        forall|i: int| 0 <= i < t1@.len() ==> {
            &&& (#[trigger] t1@[i]).start_date matches Some(d) ==> d.wf()
            &&& t1@[i].end_date matches Some(d) ==> d.wf()
        },
    ensures
        views(r@) == modified_task_ids(t1@, t2@, t2@.len() as int),
{
    let mut r: Vec<String> = Vec::new();
    let mut k: usize = 0;
    while k < t2.len()
        invariant
            0 <= k <= t2.len(),
            views(r@) == modified_task_ids(t1@, t2@, k as int),
        decreases t2.len() - k,
    {
        let ghost before = r@;
        let t = &t2[k];
        match find_task_index(t1, t.task_id.as_str()) {
            Some(j) => {
                let old = &t1[j];
                if !str_eq(old.status.as_str(), t.status.as_str()) || !same_date(old.start_date, t.start_date)
                    || !same_date(old.end_date, t.end_date) {
                    r.push(t.task_id.clone());
                    proof {
                        assert(views(r@) =~= views(before).push(t2@[k as int].task_id@));
                    }
                }
            },
            None => {},
        }
        k = k + 1;
    }
    r
}

/// The signed number of days from `a` to `b`, where both dates are known.
fn days_between(a: Option<Date>, b: Option<Date>) -> (r: Option<i32>)
    requires
        a matches Some(x) ==> x.wf(),
        b matches Some(y) ==> y.wf(),
    ensures
        match day_difference(a, b) {
            Some(d) => r == Some(d as i32) && -200_000_000 < d < 200_000_000,
            None => r is None,
        },
{
    match (a, b) {
        (Some(x), Some(y)) => {
            proof {
                x.lemma_in_range();
                y.lemma_in_range();
            }
            Some(y.days_since(&x) as i32)
        },
        _ => None,
    }
}

impl ScenarioComparison {
    /// Compares two scenarios: the differences of their start dates, end dates and
    /// planned durations in days (second minus first), whether state and priority
    /// differ, the tasks that the second adds, lacks or plans otherwise, the
    /// differences in the numbers of tasks and of resource assignments, and whether
    /// the second ends later (delayed) or earlier (ahead), by how many days.
    pub fn new(scenario1: &ProjectScenario, scenario2: &ProjectScenario) -> (c: ScenarioComparison)
        requires
            scenario_dates_wf(*scenario1),
            scenario_dates_wf(*scenario2),
            scenario1.tasks@.len() <= i32::MAX,
            scenario2.tasks@.len() <= i32::MAX,
            scenario1.resource_assignments@.len() <= i32::MAX,
            scenario2.resource_assignments@.len() <= i32::MAX,
        ensures
            compared(c, *scenario1, *scenario2),
            scenario_task_ids_unique(scenario1.tasks@) && scenario_task_ids_unique(scenario2.tasks@) ==> {
                let t1 = scenario1.tasks@;
                let t2 = scenario2.tasks@;
                &&& no_repeats(views(c.new_tasks@))
                &&& no_repeats(views(c.removed_tasks@))
                &&& no_repeats(views(c.modified_tasks@))
                &&& forall|x: Seq<char>| #[trigger] views(c.new_tasks@).contains(x)
                    <==> task_ids(t2).contains(x) && !task_ids(t1).contains(x)
                &&& forall|x: Seq<char>| #[trigger] views(c.removed_tasks@).contains(x)
                    <==> task_ids(t1).contains(x) && !task_ids(t2).contains(x)
                &&& forall|x: Seq<char>| #[trigger] views(c.modified_tasks@).contains(x) ==> task_ids(t2).contains(x)
                &&& forall|j: int| 0 <= j < t2.len() ==> (views(c.modified_tasks@).contains(#[trigger] t2[j].task_id@)
                    <==> (find_task(t1, t2[j].task_id@) matches Some(o) && (o.status@ != t2[j].status@ || o.start_date != t2[j].start_date || o.end_date != t2[j].end_date)))
            },
    {
        proof {
            if scenario_task_ids_unique(scenario1.tasks@) && scenario_task_ids_unique(scenario2.tasks@) {
                lemma_comparison_lists(scenario1.tasks@, scenario2.tasks@);
            }
        }
        let start_date_diff = days_between(scenario1.start_date, scenario2.start_date);
        let end_date_diff = days_between(scenario1.end_date, scenario2.end_date);
        let d1 = days_between(scenario1.start_date, scenario1.end_date);
        let d2 = days_between(scenario2.start_date, scenario2.end_date);
        let duration_diff = match (d1, d2) {
            (Some(a), Some(b)) => Some(b - a),
            _ => None,
        };
        let new_tasks = missing_tasks(&scenario1.tasks, &scenario2.tasks);
        let removed_tasks = missing_tasks(&scenario2.tasks, &scenario1.tasks);
        let modified_tasks = changed_tasks(&scenario1.tasks, &scenario2.tasks);
        let task_count_diff = scenario2.tasks.len() as i32 - scenario1.tasks.len() as i32;
        let resource_assignment_diff = scenario2.resource_assignments.len() as i32
            - scenario1.resource_assignments.len() as i32;
        let (is_delayed, delay_days, is_ahead, ahead_days) = match end_date_diff {
            Some(d) => {
                if d > 0 {
                    (true, Some(d), false, None)
                } else if d < 0 {
                    (false, None, true, Some(-d))
                } else {
                    (false, None, false, None)
                }
            },
            None => (false, None, false, None),
        };
        ScenarioComparison {
            scenario1_id: scenario1.id.clone(),
            scenario1_name: scenario1.name.clone(),
            scenario2_id: scenario2.id.clone(),
            scenario2_name: scenario2.name.clone(),
            start_date_difference: start_date_diff,
            end_date_difference: end_date_diff,
            duration_difference: duration_diff,
            status_different: !str_eq(scenario1.status.as_str(), scenario2.status.as_str()),
            priority_different: !str_eq(scenario1.priority.as_str(), scenario2.priority.as_str()),
            task_count_difference: task_count_diff,
            new_tasks,
            removed_tasks,
            modified_tasks,
            resource_assignment_differences: resource_assignment_diff,
            is_delayed,
            delay_days,
            is_ahead_of_schedule: is_ahead,
            ahead_days,
        }
    }

    /// Whether anything differs: a known date or duration difference, state,
    /// priority, the number of tasks, added, removed or changed tasks, or the number
    /// of resource assignments.
    pub fn has_significant_changes(&self) -> (b: bool)
        ensures
            b == (self.start_date_difference is Some || self.end_date_difference is Some
                || self.duration_difference is Some || self.status_different || self.priority_different
                || self.task_count_difference != 0 || self.new_tasks@.len() > 0 || self.removed_tasks@.len() > 0
                || self.modified_tasks@.len() > 0 || self.resource_assignment_differences != 0),
    {
        self.start_date_difference.is_some() || self.end_date_difference.is_some()
            || self.duration_difference.is_some() || self.status_different || self.priority_different
            || self.task_count_difference != 0 || self.new_tasks.len() != 0 || self.removed_tasks.len() != 0
            || self.modified_tasks.len() != 0 || self.resource_assignment_differences != 0
    }

    /// A sentence that sums the comparison up.
    pub fn summary(&self) -> (s: String)
        ensures
            s@ == summary_text(*self),
    {
        let mut parts: Vec<String> = Vec::new();
        date_sentence(&mut parts, self.start_date_difference, "Started");
        date_sentence(&mut parts, self.end_date_difference, "Ends");
        let ghost p2 = views(parts@);
        if self.task_count_difference > 0 {
            parts.push(String::from_str("Added ").concat(i64_to_text(self.task_count_difference as i64).as_str()).concat(" tasks"));
        } else if self.task_count_difference < 0 {
            parts.push(String::from_str("Removed ").concat(i64_to_text(-(self.task_count_difference as i64)).as_str()).concat(" tasks"));
        }
        let ghost p3 = views(parts@);
        proof {
            reveal_strlit("-");
        }
        assert(p3 =~= p2 + (if self.task_count_difference > 0 {
            seq!["Added "@ + decimal(self.task_count_difference as nat) + " tasks"@]
        } else if self.task_count_difference < 0 {
            seq!["Removed "@ + decimal((-self.task_count_difference) as nat) + " tasks"@]
        } else {
            Seq::<Seq<char>>::empty()
        }));
        if self.new_tasks.len() > 0 {
            parts.push(usize_to_text(self.new_tasks.len()).concat(" new tasks"));
        }
        let ghost p4 = views(parts@);
        assert(p4 =~= p3 + (if self.new_tasks@.len() > 0 {
            seq![decimal(self.new_tasks@.len()) + " new tasks"@]
        } else {
            Seq::<Seq<char>>::empty()
        }));
        if self.removed_tasks.len() > 0 {
            parts.push(usize_to_text(self.removed_tasks.len()).concat(" removed tasks"));
        }
        let ghost p5 = views(parts@);
        assert(p5 =~= p4 + (if self.removed_tasks@.len() > 0 {
            seq![decimal(self.removed_tasks@.len()) + " removed tasks"@]
        } else {
            Seq::<Seq<char>>::empty()
        }));
        if self.modified_tasks.len() > 0 {
            parts.push(usize_to_text(self.modified_tasks.len()).concat(" modified tasks"));
        }
        assert(views(parts@) =~= summary_parts(*self));
        if parts.len() == 0 {
            String::from_str("No significant changes")
        } else {
            join_strings(&parts, ", ")
        }
    }
}

/// Adds to `parts` the sentence that a day difference calls for.
fn date_sentence(parts: &mut Vec<String>, diff: Option<i32>, what: &str)
    ensures
        views(final(parts)@) == views(old(parts)@) + date_part(diff, what@),
{
    let ghost before = views(parts@);
    match diff {
        Some(d) => {
            if d > 0 {
                parts.push(String::from_str(what).concat(" ").concat(i64_to_text(d as i64).as_str()).concat(" days later"));
            } else if d < 0 {
                parts.push(String::from_str(what).concat(" ").concat(i64_to_text(-(d as i64)).as_str()).concat(" days earlier"));
            }
        },
        None => {},
    }
    assert(views(parts@) =~= before + date_part(diff, what@));
}

/// `uuid7::uuid7` rendered by its `Display`: a new identifier in the canonical
/// 8-4-4-4-12 hexadecimal form. Only its length is claimed; the value depends on the
/// clock and on chance.
#[verifier::external_body]
pub(crate) fn uuid7_text() -> (s: String)
    ensures
        s@.len() == 36,
{
    uuid7::uuid7().to_string()
}

/// The tasks after adding one: it replaces the first task with its identifier, or
/// joins the end of the list.
pub open spec fn tasks_after(ts: Seq<TaskScenario>, t: TaskScenario) -> Seq<TaskScenario> {
    match find_task_index_spec(ts, t.task_id@) {
        Some(i) => ts.update(i, t),
        None => ts.push(t),
    }
}

/// The position of the first task with the identifier.
pub open spec fn find_task_index_spec(ts: Seq<TaskScenario>, id: Seq<char>) -> Option<int>
    decreases ts.len(),
{
    if ts.len() == 0 {
        None
    } else if ts[0].task_id@ == id {
        Some(0)
    } else {
        match find_task_index_spec(ts.skip(1), id) {
            Some(i) => Some(i + 1),
            None => None,
        }
    }
}

/// Whether no two tasks of a scenario share an identifier.
pub open spec fn scenario_task_ids_unique(ts: Seq<TaskScenario>) -> bool {
    forall|i: int, j: int| 0 <= i < j < ts.len() ==> (#[trigger] ts[i]).task_id@ != (#[trigger] ts[j]).task_id@
}

/// The first task found under an identifier lies in the list and has it; where none
/// is found, no task has it.
proof fn lemma_find_task_index(ts: Seq<TaskScenario>, id: Seq<char>)
    ensures
        find_task_index_spec(ts, id) matches Some(i) ==> 0 <= i < ts.len() && ts[i].task_id@ == id,
        find_task_index_spec(ts, id) is None ==> forall|k: int| 0 <= k < ts.len() ==> (#[trigger] ts[k]).task_id@ != id,
    decreases ts.len(),
{
    if ts.len() > 0 {
        lemma_find_task_index(ts.skip(1), id);
        if find_task_index_spec(ts, id) is None {
            assert forall|k: int| 0 <= k < ts.len() implies (#[trigger] ts[k]).task_id@ != id by {
                if k > 0 {
                    assert(ts[k] == ts.skip(1)[k - 1]);
                }
            }
        }
    }
}

/// Law: adding a task to a scenario replaces the task with its identifier or joins
/// the end, so the identifiers of a scenario's tasks stay distinct.
pub proof fn lemma_scenario_tasks_stay_unique(ts: Seq<TaskScenario>, t: TaskScenario)
    requires
        scenario_task_ids_unique(ts),
    ensures
        scenario_task_ids_unique(tasks_after(ts, t)),
{
    lemma_find_task_index(ts, t.task_id@);
    let r = tasks_after(ts, t);
    assert forall|i: int, j: int| 0 <= i < j < r.len() implies (#[trigger] r[i]).task_id@ != (#[trigger] r[j]).task_id@ by {
        match find_task_index_spec(ts, t.task_id@) {
            Some(k) => {
                if i == k {
                    assert(r[j] == ts[j]);
                    assert(ts[k].task_id@ == t.task_id@);
                } else if j == k {
                    assert(r[i] == ts[i]);
                } else {
                    assert(r[i] == ts[i] && r[j] == ts[j]);
                }
            },
            None => {
                if j == ts.len() {
                    assert(r[i] == ts[i]);
                } else {
                    assert(r[i] == ts[i] && r[j] == ts[j]);
                }
            },
        }
    }
}

/// The position of the first assignment with the identifier.
pub open spec fn find_assignment_spec(s: Seq<ResourceAssignmentScenario>, id: Seq<char>) -> Option<int>
    decreases s.len(),
{
    if s.len() == 0 {
        None
    } else if s[0].assignment_id@ == id {
        Some(0)
    } else {
        match find_assignment_spec(s.skip(1), id) {
            Some(i) => Some(i + 1),
            None => None,
        }
    }
}

/// The position of the first scenario with the identifier.
pub open spec fn find_scenario_spec(s: Seq<ProjectScenario>, id: Seq<char>) -> Option<int>
    decreases s.len(),
{
    if s.len() == 0 {
        None
    } else if s[0].id@ == id {
        Some(0)
    } else {
        match find_scenario_spec(s.skip(1), id) {
            Some(i) => Some(i + 1),
            None => None,
        }
    }
}

proof fn lemma_task_index(ts: Seq<TaskScenario>, id: Seq<char>, i: int)
    requires
        0 <= i <= ts.len(),
        i < ts.len() ==> ts[i].task_id@ == id,
        forall|j: int| 0 <= j < i ==> ts[j].task_id@ != id,
    ensures
        find_task_index_spec(ts, id) == if i < ts.len() { Some(i) } else { None::<int> },
        i < ts.len() ==> find_task(ts, id) == Some(ts[i]),
        i == ts.len() ==> find_task(ts, id) is None,
    decreases i,
{
    if i > 0 {
        assert forall|j: int| 0 <= j < i - 1 implies ts.skip(1)[j].task_id@ != id by {
            assert(ts.skip(1)[j] == ts[j + 1]);
        }
        lemma_task_index(ts.skip(1), id, i - 1);
    } else if ts.len() > 0 {
    }
}

proof fn lemma_assignment_index(s: Seq<ResourceAssignmentScenario>, id: Seq<char>, i: int)
    requires
        0 <= i <= s.len(),
        i < s.len() ==> s[i].assignment_id@ == id,
        forall|j: int| 0 <= j < i ==> s[j].assignment_id@ != id,
    ensures
        find_assignment_spec(s, id) == if i < s.len() { Some(i) } else { None::<int> },
    decreases i,
{
    if i > 0 {
        assert forall|j: int| 0 <= j < i - 1 implies s.skip(1)[j].assignment_id@ != id by {
            assert(s.skip(1)[j] == s[j + 1]);
        }
        lemma_assignment_index(s.skip(1), id, i - 1);
    }
}

proof fn lemma_scenario_index(s: Seq<ProjectScenario>, id: Seq<char>, i: int)
    requires
        0 <= i <= s.len(),
        i < s.len() ==> s[i].id@ == id,
        forall|j: int| 0 <= j < i ==> s[j].id@ != id,
    ensures
        find_scenario_spec(s, id) == if i < s.len() { Some(i) } else { None::<int> },
    decreases i,
{
    if i > 0 {
        assert forall|j: int| 0 <= j < i - 1 implies s.skip(1)[j].id@ != id by {
            assert(s.skip(1)[j] == s[j + 1]);
        }
        lemma_scenario_index(s.skip(1), id, i - 1);
    }
}

fn task_position(ts: &Vec<TaskScenario>, id: &str) -> (r: Option<usize>)
    ensures
        match r {
            Some(i) => i < ts@.len() && find_task_index_spec(ts@, id@) == Some(i as int),
            None => find_task_index_spec(ts@, id@) is None,
        },
{
    let mut i: usize = 0;
    while i < ts.len()
        invariant
            0 <= i <= ts.len(),
            forall|j: int| 0 <= j < i ==> ts@[j].task_id@ != id@,
        decreases ts.len() - i,
    {
        if str_eq(ts[i].task_id.as_str(), id) {
            proof {
                lemma_task_index(ts@, id@, i as int);
            }
            return Some(i);
        }
        i = i + 1;
    }
    proof {
        lemma_task_index(ts@, id@, i as int);
    }
    None
}

fn assignment_position(s: &Vec<ResourceAssignmentScenario>, id: &str) -> (r: Option<usize>)
    ensures
        match r {
            Some(i) => i < s@.len() && find_assignment_spec(s@, id@) == Some(i as int),
            None => find_assignment_spec(s@, id@) is None,
        },
{
    let mut i: usize = 0;
    while i < s.len()
        invariant
            0 <= i <= s.len(),
            forall|j: int| 0 <= j < i ==> s@[j].assignment_id@ != id@,
        decreases s.len() - i,
    {
        if str_eq(s[i].assignment_id.as_str(), id) {
            proof {
                lemma_assignment_index(s@, id@, i as int);
            }
            return Some(i);
        }
        i = i + 1;
    }
    proof {
        lemma_assignment_index(s@, id@, i as int);
    }
    None
}

fn scenario_position(s: &Vec<ProjectScenario>, id: &str) -> (r: Option<usize>)
    ensures
        match r {
            Some(i) => i < s@.len() && find_scenario_spec(s@, id@) == Some(i as int),
            None => find_scenario_spec(s@, id@) is None,
        },
{
    let mut i: usize = 0;
    while i < s.len()
        invariant
            0 <= i <= s.len(),
            forall|j: int| 0 <= j < i ==> s@[j].id@ != id@,
        decreases s.len() - i,
    {
        if str_eq(s[i].id.as_str(), id) {
            proof {
                lemma_scenario_index(s@, id@, i as int);
            }
            return Some(i);
        }
        i = i + 1;
    }
    proof {
        lemma_scenario_index(s@, id@, i as int);
    }
    None
}

/// The signed number of days from `a` to `b` as a `u32`, wrapping as a cast does.
pub open spec fn days_as_u32(a: Option<Date>, b: Option<Date>) -> Option<u32> {
    match day_difference(a, b) {
        Some(d) => Some(d as u32),
        None => None,
    }
}

impl ProjectScenario {
    /// A new scenario with a fresh identifier: planned, of medium priority, without
    /// dates, tasks or assignments.
    pub fn new(
        name: String,
        description: Option<String>,
        scenario_type: ScenarioType,
        project_id: String,
        project_code: String,
        project_name: String,
        created_by: String,
    ) -> (s: ProjectScenario)
        ensures
            s.id@.len() == 36,
            s.name == name,
            s.description == description,
            s.scenario_type == scenario_type,
            s.project_id == project_id,
            s.project_code == project_code,
            s.project_name == project_name,
            s.status@ == "Planned"@,
            s.priority@ == "Medium"@,
            s.start_date is None && s.end_date is None,
            s.actual_start_date is None && s.actual_end_date is None,
            s.tasks@.len() == 0,
            s.resource_assignments@.len() == 0,
            s.created_by == created_by,
            s.metadata@.len() == 0,
    {
        ProjectScenario {
            id: uuid7_text(),
            name,
            description,
            scenario_type,
            project_id,
            project_code,
            project_name,
            status: String::from_str("Planned"),
            priority: String::from_str("Medium"),
            start_date: None,
            end_date: None,
            actual_start_date: None,
            actual_end_date: None,
            tasks: Vec::new(),
            resource_assignments: Vec::new(),
            created_at: now_millis(),
            created_by,
            metadata: Vec::new(),
        }
    }

    /// Adds a task, replacing the task with the same identifier.
    pub fn add_task(&mut self, task: TaskScenario)
        ensures
            final(self).tasks@ == tasks_after(old(self).tasks@, task),
            *final(self) == (ProjectScenario { tasks: final(self).tasks, ..*old(self) }),
            scenario_task_ids_unique(old(self).tasks@) ==> scenario_task_ids_unique(final(self).tasks@),
    {
        proof {
            if scenario_task_ids_unique(self.tasks@) {
                lemma_scenario_tasks_stay_unique(self.tasks@, task);
            }
        }
        match task_position(&self.tasks, task.task_id.as_str()) {
            Some(i) => {
                self.tasks.set(i, task);
            },
            None => {
                self.tasks.push(task);
            },
        }
    }

    /// Adds a resource assignment, replacing the one with the same identifier.
    pub fn add_resource_assignment(&mut self, assignment: ResourceAssignmentScenario)
        ensures
            final(self).resource_assignments@ == match find_assignment_spec(old(self).resource_assignments@, assignment.assignment_id@) {
                Some(i) => old(self).resource_assignments@.update(i, assignment),
                None => old(self).resource_assignments@.push(assignment),
            },
            *final(self) == (ProjectScenario { resource_assignments: final(self).resource_assignments, ..*old(self) }),
    {
        match assignment_position(&self.resource_assignments, assignment.assignment_id.as_str()) {
            Some(i) => {
                self.resource_assignments.set(i, assignment);
            },
            None => {
                self.resource_assignments.push(assignment);
            },
        }
    }

    /// Sets the planned dates.
    pub fn update_dates(&mut self, start_date: Option<Date>, end_date: Option<Date>)
        ensures
            *final(self) == (ProjectScenario { start_date, end_date, ..*old(self) }),
    {
        self.start_date = start_date;
        self.end_date = end_date;
    }

    /// Sets the state.
    pub fn update_status(&mut self, status: String)
        ensures
            *final(self) == (ProjectScenario { status, ..*old(self) }),
    {
        self.status = status;
    }

    /// Sets the priority.
    pub fn update_priority(&mut self, priority: String)
        ensures
            *final(self) == (ProjectScenario { priority, ..*old(self) }),
    {
        self.priority = priority;
    }

    /// Sets the actual dates.
    pub fn set_actual_dates(&mut self, actual_start: Option<Date>, actual_end: Option<Date>)
        ensures
            *final(self) == (ProjectScenario { actual_start_date: actual_start, actual_end_date: actual_end, ..*old(self) }),
    {
        self.actual_start_date = actual_start;
        self.actual_end_date = actual_end;
    }

    /// The first task with the identifier.
    pub fn get_task(&self, task_id: &str) -> (r: Option<&TaskScenario>)
        ensures
            match find_task_index_spec(self.tasks@, task_id@) {
                Some(i) => r == Some(&self.tasks@[i]),
                None => r is None,
            },
    {
        match task_position(&self.tasks, task_id) {
            Some(i) => Some(&self.tasks[i]),
            None => None,
        }
    }

    /// The first resource assignment with the identifier.
    pub fn get_resource_assignment(&self, assignment_id: &str) -> (r: Option<&ResourceAssignmentScenario>)
        ensures
            match find_assignment_spec(self.resource_assignments@, assignment_id@) {
                Some(i) => r == Some(&self.resource_assignments@[i]),
                None => r is None,
            },
    {
        match assignment_position(&self.resource_assignments, assignment_id) {
            Some(i) => Some(&self.resource_assignments[i]),
            None => None,
        }
    }

    /// Whether this is a baseline scenario.
    pub fn is_baseline(&self) -> (b: bool)
        ensures
            b == (self.scenario_type == ScenarioType::Baseline),
    {
        match self.scenario_type {
            ScenarioType::Baseline => true,
            _ => false,
        }
    }

    /// Whether this is the current scenario.
    pub fn is_current(&self) -> (b: bool)
        ensures
            b == (self.scenario_type == ScenarioType::Current),
    {
        match self.scenario_type {
            ScenarioType::Current => true,
            _ => false,
        }
    }

    /// The planned number of days, cast to `u32`, where both dates are known.
    pub fn duration_days(&self) -> (r: Option<u32>)
        requires
            self.start_date matches Some(d) ==> d.wf(),
            self.end_date matches Some(d) ==> d.wf(),
        ensures
            r == days_as_u32(self.start_date, self.end_date),
    {
        match (self.start_date, self.end_date) {
            (Some(start), Some(end)) => Some(end.days_since(&start) as u32),
            _ => None,
        }
    }

    /// The actual number of days, cast to `u32`, where both actual dates are known.
    pub fn actual_duration_days(&self) -> (r: Option<u32>)
        requires
            self.actual_start_date matches Some(d) ==> d.wf(),
            self.actual_end_date matches Some(d) ==> d.wf(),
        ensures
            r == days_as_u32(self.actual_start_date, self.actual_end_date),
    {
        match (self.actual_start_date, self.actual_end_date) {
            (Some(start), Some(end)) => Some(end.days_since(&start) as u32),
            _ => None,
        }
    }

    /// Whether the scenario ended after its planned end.
    pub fn is_delayed(&self) -> (b: bool)
        ensures
            b == (day_difference(self.end_date, self.actual_end_date) matches Some(d) && d > 0),
    {
        match (self.end_date, self.actual_end_date) {
            (Some(planned), Some(actual)) => planned.before(&actual),
            _ => false,
        }
    }

    /// The days from the planned end to the actual end, where both are known.
    pub fn delay_days(&self) -> (r: Option<i32>)
        requires
            self.end_date matches Some(d) ==> d.wf(),
            self.actual_end_date matches Some(d) ==> d.wf(),
        ensures
            match day_difference(self.end_date, self.actual_end_date) {
                Some(d) => r == Some(d as i32),
                None => r is None,
            },
    {
        days_between(self.end_date, self.actual_end_date)
    }
}

/// The scenarios of a project, with the one in use and the baseline. Scenarios are
/// listed in order and found by their identifier.
#[derive(Debug, Clone)]
pub struct ScenarioManager {
    pub project_id: String,
    pub project_code: String,
    pub scenarios: Vec<ProjectScenario>,
    pub active_scenario_id: Option<String>,
    pub baseline_scenario_id: Option<String>,
}

/// The view of an optional identifier.
pub open spec fn opt_id(o: Option<String>) -> Option<Seq<char>> {
    match o {
        Some(s) => Some(s@),
        None => None,
    }
}

/// Whether every scenario can be compared: its dates lie in range and its lists
/// are small enough to count in an `i32`.
pub open spec fn comparable(s: ProjectScenario) -> bool {
    &&& scenario_dates_wf(s)
    &&& s.tasks@.len() <= i32::MAX
    &&& s.resource_assignments@.len() <= i32::MAX
}

/// The identifier of the first scenario, among those from position `i`, other than `id`.
pub open spec fn first_other(s: Seq<ProjectScenario>, id: Seq<char>, i: int) -> Option<Seq<char>>
    decreases s.len() - i,
{
    if i < 0 || i >= s.len() {
        None
    } else if s[i].id@ != id {
        Some(s[i].id@)
    } else {
        first_other(s, id, i + 1)
    }
}

/// The identifier of the first scenario whose identifier is not `id`.
fn first_other_id(scenarios: &Vec<ProjectScenario>, id: &str) -> (r: Option<String>)
    ensures
        opt_id(r) == first_other(scenarios@, id@, 0),
{
    let mut i: usize = 0;
    while i < scenarios.len()
        invariant
            0 <= i <= scenarios.len(),
            first_other(scenarios@, id@, 0) == first_other(scenarios@, id@, i as int),
        decreases scenarios.len() - i,
    {
        if !str_eq(scenarios[i].id.as_str(), id) {
            let r = scenarios[i].id.clone();
            return Some(r);
        }
        i = i + 1;
    }
    None
}

impl ScenarioManager {
    /// A manager without scenarios.
    pub fn new(project_id: String, project_code: String) -> (m: ScenarioManager)
        ensures
            m.project_id == project_id,
            m.project_code == project_code,
            m.scenarios@.len() == 0,
            m.active_scenario_id is None,
            m.baseline_scenario_id is None,
    {
        ScenarioManager {
            project_id,
            project_code,
            scenarios: Vec::new(),
            active_scenario_id: None,
            baseline_scenario_id: None,
        }
    }

    /// Adds a scenario, replacing the one with the same identifier. The first baseline
    /// scenario becomes the baseline, and the first scenario the active one.
    pub fn add_scenario(&mut self, scenario: ProjectScenario)
        ensures
            final(self).scenarios@ == match find_scenario_spec(old(self).scenarios@, scenario.id@) {
                Some(i) => old(self).scenarios@.update(i, scenario),
                None => old(self).scenarios@.push(scenario),
            },
            opt_id(final(self).baseline_scenario_id) == if scenario.scenario_type == ScenarioType::Baseline
                && old(self).baseline_scenario_id is None {
                Some(scenario.id@)
            } else {
                opt_id(old(self).baseline_scenario_id)
            },
            opt_id(final(self).active_scenario_id) == if old(self).active_scenario_id is None {
                Some(scenario.id@)
            } else {
                opt_id(old(self).active_scenario_id)
            },
            final(self).project_id == old(self).project_id,
            final(self).project_code == old(self).project_code,
    {
        let scenario_id = scenario.id.clone();
        let is_baseline = scenario.is_baseline();
        match scenario_position(&self.scenarios, scenario_id.as_str()) {
            Some(i) => {
                self.scenarios.set(i, scenario);
            },
            None => {
                self.scenarios.push(scenario);
            },
        }
        if is_baseline && self.baseline_scenario_id.is_none() {
            self.baseline_scenario_id = Some(scenario_id.clone());
        }
        if self.active_scenario_id.is_none() {
            self.active_scenario_id = Some(scenario_id);
        }
    }

    /// The scenario with the identifier.
    pub fn get_scenario(&self, scenario_id: &str) -> (r: Option<&ProjectScenario>)
        ensures
            match find_scenario_spec(self.scenarios@, scenario_id@) {
                Some(i) => r == Some(&self.scenarios@[i]),
                None => r is None,
            },
    {
        match scenario_position(&self.scenarios, scenario_id) {
            Some(i) => Some(&self.scenarios[i]),
            None => None,
        }
    }

    /// Makes the scenario with the identifier the active one, if there is one.
    pub fn set_active_scenario(&mut self, scenario_id: &str) -> (b: bool)
        ensures
            b == (find_scenario_spec(old(self).scenarios@, scenario_id@) is Some),
            b ==> opt_id(final(self).active_scenario_id) == Some(scenario_id@),
            !b ==> final(self).active_scenario_id == old(self).active_scenario_id,
            final(self).scenarios == old(self).scenarios,
            final(self).baseline_scenario_id == old(self).baseline_scenario_id,
    {
        match scenario_position(&self.scenarios, scenario_id) {
            Some(_) => {
                self.active_scenario_id = Some(String::from_str(scenario_id));
                true
            },
            None => false,
        }
    }

    /// Makes the scenario with the identifier the baseline, if there is one and it is a
    /// baseline scenario.
    pub fn set_baseline_scenario(&mut self, scenario_id: &str) -> (b: bool)
        ensures
            b == (find_scenario_spec(old(self).scenarios@, scenario_id@) matches Some(i)
                && old(self).scenarios@[i].scenario_type == ScenarioType::Baseline),
            b ==> opt_id(final(self).baseline_scenario_id) == Some(scenario_id@),
            !b ==> final(self).baseline_scenario_id == old(self).baseline_scenario_id,
            final(self).scenarios == old(self).scenarios,
            final(self).active_scenario_id == old(self).active_scenario_id,
    {
        match scenario_position(&self.scenarios, scenario_id) {
            Some(i) => {
                if self.scenarios[i].is_baseline() {
                    self.baseline_scenario_id = Some(String::from_str(scenario_id));
                    true
                } else {
                    false
                }
            },
            None => false,
        }
    }

    /// The active scenario, if it is set and known.
    pub fn get_active_scenario(&self) -> (r: Option<&ProjectScenario>)
        ensures
            match self.active_scenario_id {
                Some(id) => match find_scenario_spec(self.scenarios@, id@) {
                    Some(i) => r == Some(&self.scenarios@[i]),
                    None => r is None,
                },
                None => r is None,
            },
    {
        match &self.active_scenario_id {
            Some(id) => self.get_scenario(id.as_str()),
            None => None,
        }
    }

    /// The baseline scenario, if it is set and known.
    pub fn get_baseline_scenario(&self) -> (r: Option<&ProjectScenario>)
        ensures
            match self.baseline_scenario_id {
                Some(id) => match find_scenario_spec(self.scenarios@, id@) {
                    Some(i) => r == Some(&self.scenarios@[i]),
                    None => r is None,
                },
                None => r is None,
            },
    {
        match &self.baseline_scenario_id {
            Some(id) => self.get_scenario(id.as_str()),
            None => None,
        }
    }

    /// Compares two scenarios of the manager, where both are known.
    pub fn compare_scenarios(&self, scenario1_id: &str, scenario2_id: &str) -> (r: Option<ScenarioComparison>)
        requires
            forall|i: int| 0 <= i < self.scenarios@.len() ==> comparable(#[trigger] self.scenarios@[i]),
        ensures
            match (find_scenario_spec(self.scenarios@, scenario1_id@), find_scenario_spec(self.scenarios@, scenario2_id@)) {
                (Some(i), Some(j)) => r matches Some(c) && compared(c, self.scenarios@[i], self.scenarios@[j]),
                _ => r is None,
            },
    {
        let i = match scenario_position(&self.scenarios, scenario1_id) {
            Some(i) => i,
            None => {
                return None;
            },
        };
        let j = match scenario_position(&self.scenarios, scenario2_id) {
            Some(j) => j,
            None => {
                return None;
            },
        };
        assert(comparable(self.scenarios@[i as int]));
        assert(comparable(self.scenarios@[j as int]));
        Some(ScenarioComparison::new(&self.scenarios[i], &self.scenarios[j]))
    }

    /// The scenarios of a kind, in order.
    pub fn list_scenarios_by_type(&self, scenario_type: ScenarioType) -> (r: Vec<&ProjectScenario>)
        ensures
            r@.len() <= self.scenarios@.len(),
            forall|k: int| 0 <= k < r@.len() ==> (#[trigger] r@[k]).scenario_type == scenario_type
                && self.scenarios@.contains(*r@[k]),
            forall|i: int| 0 <= i < self.scenarios@.len() && (#[trigger] self.scenarios@[i]).scenario_type == scenario_type
                ==> r@.contains(&self.scenarios@[i]),
    {
        let mut r: Vec<&ProjectScenario> = Vec::new();
        let mut i: usize = 0;
        while i < self.scenarios.len()
            invariant
                0 <= i <= self.scenarios.len(),
                r@.len() <= i,
                forall|k: int| 0 <= k < r@.len() ==> (#[trigger] r@[k]).scenario_type == scenario_type
                    && self.scenarios@.contains(*r@[k]),
                forall|j: int| 0 <= j < i && (#[trigger] self.scenarios@[j]).scenario_type == scenario_type
                    ==> r@.contains(&self.scenarios@[j]),
            decreases self.scenarios.len() - i,
        {
            let s = &self.scenarios[i];
            if s.scenario_type == scenario_type {
                let ghost before = r@;
                r.push(s);
                proof {
                    assert(r@[r@.len() - 1] == s);
                    assert forall|j: int| 0 <= j < i + 1 && (#[trigger] self.scenarios@[j]).scenario_type == scenario_type
                        implies r@.contains(&self.scenarios@[j]) by {
                        if j < i {
                            let k = choose|k: int| 0 <= k < before.len() && before[k] == &self.scenarios@[j];
                            assert(r@[k] == before[k]);
                        } else {
                            assert(r@[r@.len() - 1] == &self.scenarios@[j]);
                        }
                    }
                }
            }
            i = i + 1;
        }
        r
    }

    /// Removes a scenario, unless it is the baseline. When it is the active one, the
    /// first other scenario becomes active, if there is one.
    pub fn remove_scenario(&mut self, scenario_id: &str) -> (r: Option<ProjectScenario>)
        ensures
            opt_id(old(self).baseline_scenario_id) == Some(scenario_id@) ==> r is None && *final(self) == *old(self),
            opt_id(old(self).baseline_scenario_id) != Some(scenario_id@) ==> {
                &&& opt_id(final(self).active_scenario_id) == if opt_id(old(self).active_scenario_id) == Some(scenario_id@) {
                    first_other(old(self).scenarios@, scenario_id@, 0)
                } else {
                    opt_id(old(self).active_scenario_id)
                }
                &&& match find_scenario_spec(old(self).scenarios@, scenario_id@) {
                    Some(i) => r == Some(old(self).scenarios@[i]) && final(self).scenarios@ == old(self).scenarios@.remove(i),
                    None => r is None && final(self).scenarios@ == old(self).scenarios@,
                }
                &&& final(self).baseline_scenario_id == old(self).baseline_scenario_id
            },
    {
        match &self.baseline_scenario_id {
            Some(b) => {
                if str_eq(b.as_str(), scenario_id) {
                    return None;
                }
            },
            None => {},
        }
        let is_active = match &self.active_scenario_id {
            Some(a) => str_eq(a.as_str(), scenario_id),
            None => false,
        };
        if is_active {
            self.active_scenario_id = first_other_id(&self.scenarios, scenario_id);
        }
        match scenario_position(&self.scenarios, scenario_id) {
            Some(i) => Some(self.scenarios.remove(i)),
            None => None,
        }
    }
}

} // verus!
