//! Detection of conflicts in a planned project: overlapping dates, unmet
//! dependencies, dependencies that the calculated dates contradict, and checks
//! on a dependency before it is added.

use vstd::prelude::*;
use crate::dates::{Date, iso_text};
use crate::text::{copy_strings, debug_all, debug_quoted, decimal, join_strings, joined, quoted_all, str_debug, u64_to_text, views};
use crate::errors::DomainError;
use crate::project_management::advanced_dependencies::{
    AdvancedDependency, AdvancedDependencyGraph, DependencyType, DependencyView, GraphModel, now_millis,
};
use crate::project_management::dependency_calculation_engine::{
    CalculationResult, DateRow, find_result, lookup, results_wf, row_of, rows_of,
};

verus! {

// ============================================================================
// TYPES
// ============================================================================

/// The kind of a detected conflict.
#[derive(Debug, PartialEq, Eq)]
pub enum ConflictType {
    /// The tasks of a cycle of dependencies.
    CircularDependency(Vec<String>),
    /// Two tasks whose dates overlap, with the dates of the first.
    DateOverlap(String, String, Date, Date),
    /// Two tasks that hold the same resource over overlapping dates.
    ResourceConflict(String, String, String, Date, Date),
    /// A dependency that the calculated dates contradict, with the two dates compared.
    ImpossibleDependency(String, String, Date, Date),
    /// Two tasks whose priorities conflict.
    PriorityConflict(String, String, String, String),
    /// A resource booked beyond its capacity: required and available percentages.
    ResourceCapacityExceeded(String, Date, Date, u8, u8),
    /// A task that breaks a time constraint.
    TimeConstraintViolation(String, String, String),
}

/// How serious a conflict is.
#[derive(Debug, Clone, Copy, PartialEq, Eq, Structural)]
pub enum ConflictSeverity {
    /// Prevents the plan from being carried out.
    Critical,
    /// May cause problems.
    Warning,
    /// Worth knowing.
    Info,
}

/// A detected conflict.
#[derive(Debug, PartialEq, Eq)]
pub struct ConflictReport {
    pub conflict_type: ConflictType,
    pub severity: ConflictSeverity,
    pub message: String,
    pub affected_tasks: Vec<String>,
    pub suggested_fixes: Vec<String>,
    /// When the conflict was detected, in milliseconds since the Unix epoch.
    pub detected_at: i64,
}

/// The outcome of a validation.
#[derive(Debug, PartialEq, Eq)]
pub enum ValidationStatus {
    Valid,
    Invalid(Vec<ConflictReport>),
    InProgress,
    Error(String),
}

/// Which checks a validation runs, and their limits.
#[derive(Debug, Clone, Copy, PartialEq, Eq)]
pub struct ValidationConfig {
    pub circular_dependency_check: bool,
    pub date_overlap_check: bool,
    pub resource_conflict_check: bool,
    pub resource_capacity_check: bool,
    pub time_constraint_check: bool,
    /// Tolerance for date conflicts, in days.
    pub date_tolerance_days: i64,
    /// Largest booking of a resource per day, in percent.
    pub max_resource_capacity: u8,
}

impl Default for ValidationConfig {
    fn default() -> (c: Self)
        ensures
            c.circular_dependency_check && c.date_overlap_check && c.resource_conflict_check,
            c.resource_capacity_check && c.time_constraint_check,
            c.date_tolerance_days == 0,
            c.max_resource_capacity == 100,
    {
        ValidationConfig {
            circular_dependency_check: true,
            date_overlap_check: true,
            resource_conflict_check: true,
            resource_capacity_check: true,
            time_constraint_check: true,
            date_tolerance_days: 0,
            max_resource_capacity: 100,
        }
    }
}

// ============================================================================
// RENDERING OF A REPORT
// ============================================================================

/// The `Debug` name of a severity.
pub open spec fn severity_text(s: ConflictSeverity) -> Seq<char> {
    match s {
        ConflictSeverity::Critical => "Critical"@,
        ConflictSeverity::Warning => "Warning"@,
        ConflictSeverity::Info => "Info"@,
    }
}

/// Whether the dates of a conflict kind lie in range.
pub open spec fn conflict_type_dates_wf(t: ConflictType) -> bool {
    match t {
        ConflictType::DateOverlap(_, _, a, b) => a.wf() && b.wf(),
        ConflictType::ResourceConflict(_, _, _, a, b) => a.wf() && b.wf(),
        ConflictType::ImpossibleDependency(_, _, a, b) => a.wf() && b.wf(),
        ConflictType::ResourceCapacityExceeded(_, a, b, _, _) => a.wf() && b.wf(),
        _ => true,
    }
}

/// The `%Y-%m-%d` text of a date, which is also its `Debug` rendering.
pub open spec fn day_text(d: Date) -> Seq<char> {
    iso_text(d.day() as i32)
}

/// The `Debug` rendering of a conflict kind: the variant's name and its fields,
/// strings quoted, dates as `%Y-%m-%d`, lists in brackets.
pub open spec fn conflict_type_text(t: ConflictType) -> Seq<char> {
    match t {
        ConflictType::CircularDependency(v) => "CircularDependency(["@ + joined(quoted_all(v@), ", "@) + "])"@,
        ConflictType::DateOverlap(a, b, x, y) => "DateOverlap("@ + debug_quoted(a@) + ", "@ + debug_quoted(b@)
            + ", "@ + day_text(x) + ", "@ + day_text(y) + ")"@,
        ConflictType::ResourceConflict(a, b, r, x, y) => "ResourceConflict("@ + debug_quoted(a@) + ", "@
            + debug_quoted(b@) + ", "@ + debug_quoted(r@) + ", "@ + day_text(x) + ", "@ + day_text(y) + ")"@,
        ConflictType::ImpossibleDependency(a, b, x, y) => "ImpossibleDependency("@ + debug_quoted(a@) + ", "@
            + debug_quoted(b@) + ", "@ + day_text(x) + ", "@ + day_text(y) + ")"@,
        ConflictType::PriorityConflict(a, b, c, d) => "PriorityConflict("@ + debug_quoted(a@) + ", "@
            + debug_quoted(b@) + ", "@ + debug_quoted(c@) + ", "@ + debug_quoted(d@) + ")"@,
        ConflictType::ResourceCapacityExceeded(r, x, y, need, have) => "ResourceCapacityExceeded("@
            + debug_quoted(r@) + ", "@ + day_text(x) + ", "@ + day_text(y) + ", "@ + decimal(need as nat) + ", "@
            + decimal(have as nat) + ")"@,
        ConflictType::TimeConstraintViolation(a, b, c) => "TimeConstraintViolation("@ + debug_quoted(a@) + ", "@
            + debug_quoted(b@) + ", "@ + debug_quoted(c@) + ")"@,
    }
}

/// The rendering of a report: `[severity] message - kind (Affected: tasks)`.
pub open spec fn report_text(r: ConflictReport) -> Seq<char> {
    "["@ + severity_text(r.severity) + "] "@ + r.message@ + " - "@ + conflict_type_text(r.conflict_type)
        + " (Affected: "@ + joined(views(r.affected_tasks@), ", "@) + ")"@
}

impl ConflictSeverity {
    /// The `Debug` name of the severity.
    pub fn name(&self) -> (s: &'static str)
        ensures
            s@ == severity_text(*self),
    {
        match self {
            ConflictSeverity::Critical => "Critical",
            ConflictSeverity::Warning => "Warning",
            ConflictSeverity::Info => "Info",
        }
    }
}

fn quoted(s: &String) -> (r: String)
    ensures
        r@ == debug_quoted(s@),
{
    str_debug(s.as_str())
}

impl ConflictType {
    /// The `Debug` rendering of the conflict kind.
    pub fn to_debug_string(&self) -> (s: String)
        requires
            conflict_type_dates_wf(*self),
        ensures
            s@ == conflict_type_text(*self),
    {
        match self {
            ConflictType::CircularDependency(v) => {
                let q = debug_all(v);
                String::from_str("CircularDependency([").concat(join_strings(&q, ", ").as_str()).concat("])")
            },
            ConflictType::DateOverlap(a, b, x, y) => {
                String::from_str("DateOverlap(").concat(quoted(a).as_str()).concat(", ").concat(
                    quoted(b).as_str(),
                ).concat(", ").concat(x.to_iso_string().as_str()).concat(", ").concat(
                    y.to_iso_string().as_str(),
                ).concat(")")
            },
            ConflictType::ResourceConflict(a, b, r, x, y) => {
                String::from_str("ResourceConflict(").concat(quoted(a).as_str()).concat(", ").concat(
                    quoted(b).as_str(),
                ).concat(", ").concat(quoted(r).as_str()).concat(", ").concat(x.to_iso_string().as_str()).concat(
                    ", ",
                ).concat(y.to_iso_string().as_str()).concat(")")
            },
            ConflictType::ImpossibleDependency(a, b, x, y) => {
                String::from_str("ImpossibleDependency(").concat(quoted(a).as_str()).concat(", ").concat(
                    quoted(b).as_str(),
                ).concat(", ").concat(x.to_iso_string().as_str()).concat(", ").concat(
                    y.to_iso_string().as_str(),
                ).concat(")")
            },
            ConflictType::PriorityConflict(a, b, c, d) => {
                String::from_str("PriorityConflict(").concat(quoted(a).as_str()).concat(", ").concat(
                    quoted(b).as_str(),
                ).concat(", ").concat(quoted(c).as_str()).concat(", ").concat(quoted(d).as_str()).concat(")")
            },
            ConflictType::ResourceCapacityExceeded(r, x, y, need, have) => {
                String::from_str("ResourceCapacityExceeded(").concat(quoted(r).as_str()).concat(", ").concat(
                    x.to_iso_string().as_str(),
                ).concat(", ").concat(y.to_iso_string().as_str()).concat(", ").concat(
                    u64_to_text(*need as u64).as_str(),
                ).concat(", ").concat(u64_to_text(*have as u64).as_str()).concat(")")
            },
            ConflictType::TimeConstraintViolation(a, b, c) => {
                String::from_str("TimeConstraintViolation(").concat(quoted(a).as_str()).concat(", ").concat(
                    quoted(b).as_str(),
                ).concat(", ").concat(quoted(c).as_str()).concat(")")
            },
        }
    }
}

impl ConflictReport {
    /// The rendering of the report: `[severity] message - kind (Affected: tasks)`,
    /// the kind in its `Debug` form and the tasks joined by commas.
    pub fn to_string(&self) -> (s: String)
        requires
            conflict_type_dates_wf(self.conflict_type),
        ensures
            s@ == report_text(*self),
    {
        String::from_str("[").concat(self.severity.name()).concat("] ").concat(self.message.as_str()).concat(
            " - ",
        ).concat(self.conflict_type.to_debug_string().as_str()).concat(" (Affected: ").concat(
            join_strings(&self.affected_tasks, ", ").as_str(),
        ).concat(")")
    }
}

// ============================================================================
// MODEL OF A REPORT
// ============================================================================

/// A conflict kind with texts as character sequences and dates as day numbers.
pub enum ConflictKind {
    CircularDependency(Seq<Seq<char>>),
    DateOverlap(Seq<char>, Seq<char>, int, int),
    ResourceConflict(Seq<char>, Seq<char>, Seq<char>, int, int),
    ImpossibleDependency(Seq<char>, Seq<char>, int, int),
    PriorityConflict(Seq<char>, Seq<char>, Seq<char>, Seq<char>),
    ResourceCapacityExceeded(Seq<char>, int, int, u8, u8),
    TimeConstraintViolation(Seq<char>, Seq<char>, Seq<char>),
}

impl View for ConflictType {
    type V = ConflictKind;

    open spec fn view(&self) -> ConflictKind {
        match self {
            ConflictType::CircularDependency(v) => ConflictKind::CircularDependency(
                v@.map_values(|s: String| s@),
            ),
            ConflictType::DateOverlap(a, b, s, e) => ConflictKind::DateOverlap(a@, b@, s.day(), e.day()),
            ConflictType::ResourceConflict(a, b, r, s, e) => ConflictKind::ResourceConflict(
                a@,
                b@,
                r@,
                s.day(),
                e.day(),
            ),
            ConflictType::ImpossibleDependency(a, b, s, e) => ConflictKind::ImpossibleDependency(
                a@,
                b@,
                s.day(),
                e.day(),
            ),
            ConflictType::PriorityConflict(a, b, p, q) => ConflictKind::PriorityConflict(a@, b@, p@, q@),
            ConflictType::ResourceCapacityExceeded(r, s, e, q, a) => ConflictKind::ResourceCapacityExceeded(
                r@,
                s.day(),
                e.day(),
                *q,
                *a,
            ),
            ConflictType::TimeConstraintViolation(t, c, m) => ConflictKind::TimeConstraintViolation(t@, c@, m@),
        }
    }
}

/// What a report says, leaving out when it was made.
pub struct ReportView {
    pub kind: ConflictKind,
    pub severity: ConflictSeverity,
    pub message: Seq<char>,
    pub affected: Seq<Seq<char>>,
    pub fixes: Seq<Seq<char>>,
}

impl View for ConflictReport {
    type V = ReportView;

    open spec fn view(&self) -> ReportView {
        ReportView {
            kind: self.conflict_type@,
            severity: self.severity,
            message: self.message@,
            affected: self.affected_tasks@.map_values(|s: String| s@),
            fixes: self.suggested_fixes@.map_values(|s: String| s@),
        }
    }
}

/// The views of a list of reports.
pub open spec fn report_views(s: Seq<ConflictReport>) -> Seq<ReportView> {
    s.map_values(|r: ConflictReport| r@)
}

impl Clone for ConflictType {
    fn clone(&self) -> (r: Self)
        ensures
            r@ == self@,
    {
        match self {
            ConflictType::CircularDependency(v) => {
                let c = copy_strings(v);
                proof {
                    assert(c@.map_values(|s: String| s@) =~= v@.map_values(|s: String| s@));
                }
                ConflictType::CircularDependency(c)
            },
            ConflictType::DateOverlap(a, b, s, e) => ConflictType::DateOverlap(a.clone(), b.clone(), *s, *e),
            ConflictType::ResourceConflict(a, b, r, s, e) => ConflictType::ResourceConflict(
                a.clone(),
                b.clone(),
                r.clone(),
                *s,
                *e,
            ),
            ConflictType::ImpossibleDependency(a, b, s, e) => ConflictType::ImpossibleDependency(
                a.clone(),
                b.clone(),
                *s,
                *e,
            ),
            ConflictType::PriorityConflict(a, b, p, q) => ConflictType::PriorityConflict(
                a.clone(),
                b.clone(),
                p.clone(),
                q.clone(),
            ),
            ConflictType::ResourceCapacityExceeded(r, s, e, q, a) => ConflictType::ResourceCapacityExceeded(
                r.clone(),
                *s,
                *e,
                *q,
                *a,
            ),
            ConflictType::TimeConstraintViolation(t, c, m) => ConflictType::TimeConstraintViolation(
                t.clone(),
                c.clone(),
                m.clone(),
            ),
        }
    }
}

impl Clone for ConflictReport {
    fn clone(&self) -> (r: Self)
        ensures
            r@ == self@,
            r.detected_at == self.detected_at,
    {
        let r = ConflictReport {
            conflict_type: self.conflict_type.clone(),
            severity: self.severity,
            message: self.message.clone(),
            affected_tasks: copy_strings(&self.affected_tasks),
            suggested_fixes: copy_strings(&self.suggested_fixes),
            detected_at: self.detected_at,
        };
        proof {
            assert(r@.affected =~= self@.affected);
            assert(r@.fixes =~= self@.fixes);
        }
        r
    }
}

// ============================================================================
// WHAT EACH CHECK REPORTS
// ============================================================================

/// Whether the day ranges `[s1, e1]` and `[s2, e2]` share a day.
pub open spec fn ranges_overlap(s1: int, e1: int, s2: int, e2: int) -> bool {
    s1 <= e2 && s2 <= e1
}

/// The rows that carry both a start and an end, in their order.
pub open spec fn dated(rows: Seq<DateRow>) -> Seq<DateRow>
    decreases rows.len(),
{
    if rows.len() == 0 {
        Seq::empty()
    } else if rows.last().start is Some && rows.last().end is Some {
        dated(rows.drop_last()).push(rows.last())
    } else {
        dated(rows.drop_last())
    }
}

/// The report on two tasks whose date ranges overlap.
pub open spec fn overlap_report(a: DateRow, b: DateRow) -> ReportView {
    let s1 = a.start.unwrap();
    let e1 = a.end.unwrap();
    let s2 = b.start.unwrap();
    let e2 = b.end.unwrap();
    ReportView {
        kind: ConflictKind::DateOverlap(a.id, b.id, s1, e1),
        severity: ConflictSeverity::Warning,
        message: "Date overlap between tasks "@ + a.id + " and "@ + b.id + ": "@ + iso_text(s1 as i32)
            + " - "@ + iso_text(e1 as i32) + " overlaps with "@ + iso_text(s2 as i32) + " - "@
            + iso_text(e2 as i32),
        affected: seq![a.id, b.id],
        fixes: seq![
            "Adjust task dates to avoid overlap"@,
            "Add dependency between tasks"@,
            "Modify task durations"@,
        ],
    }
}

/// The overlap reports of the row at `i` with the rows from `i + 1` up to `j`.
pub open spec fn pair_reports(rs: Seq<DateRow>, i: int, j: int) -> Seq<ReportView>
    decreases j - i,
{
    if j <= i + 1 {
        Seq::empty()
    } else {
        let b = rs[j - 1];
        let a = rs[i];
        pair_reports(rs, i, j - 1) + if ranges_overlap(a.start.unwrap(), a.end.unwrap(), b.start.unwrap(), b.end.unwrap()) {
            seq![overlap_report(a, b)]
        } else {
            Seq::empty()
        }
    }
}

/// The overlap reports of the first `i` rows with the rows after each.
pub open spec fn overlap_reports_upto(rs: Seq<DateRow>, i: int) -> Seq<ReportView>
    decreases i,
{
    if i <= 0 {
        Seq::empty()
    } else {
        overlap_reports_upto(rs, i - 1) + pair_reports(rs, i - 1, rs.len() as int)
    }
}

/// Every overlap among the dated rows, each pair once, in the order of the rows.
pub open spec fn overlap_reports(rows: Seq<DateRow>) -> Seq<ReportView> {
    overlap_reports_upto(dated(rows), dated(rows).len() as int)
}

/// The report on a task whose dependencies are not satisfied.
pub open spec fn unsatisfied_report(id: Seq<char>) -> ReportView {
    ReportView {
        kind: ConflictKind::TimeConstraintViolation(id, "dependencies"@, "not_satisfied"@),
        severity: ConflictSeverity::Critical,
        message: "Dependencies not satisfied for task "@ + id,
        affected: seq![id],
        fixes: seq!["Check predecessor task completion"@, "Verify dependency relationships"@],
    }
}

/// One report for each result whose dependencies are not satisfied, in order.
pub open spec fn time_reports(rs: Seq<CalculationResult>) -> Seq<ReportView>
    decreases rs.len(),
{
    if rs.len() == 0 {
        Seq::empty()
    } else if !rs.last().dependencies_satisfied {
        time_reports(rs.drop_last()).push(unsatisfied_report(rs.last().task_id@))
    } else {
        time_reports(rs.drop_last())
    }
}

/// The report on a dependency that the compared dates contradict; `verb` says
/// which end of the predecessor was compared.
pub open spec fn impossible_report(d: DependencyView, pred_day: int, succ_day: int, verb: Seq<char>) -> ReportView {
    ReportView {
        kind: ConflictKind::ImpossibleDependency(d.predecessor_id, d.successor_id, pred_day, succ_day),
        severity: ConflictSeverity::Critical,
        message: "Impossible dependency: "@ + d.predecessor_id + " "@ + verb + " after "@ + d.successor_id
            + " starts ("@ + iso_text(pred_day as i32) + " > "@ + iso_text(succ_day as i32) + ")"@,
        affected: seq![d.predecessor_id, d.successor_id],
        fixes: seq!["Adjust task dates"@, "Change dependency type"@, "Add lag to dependency"@],
    }
}

/// What the check of one dependency reports: a finish-to-start dependency whose
/// predecessor ends after the successor starts, or a start-to-start dependency whose
/// predecessor starts after the successor starts. Only dependencies between two
/// calculated tasks, with the predecessor's end and the successor's start known, are
/// checked.
pub open spec fn dependency_reports(d: DependencyView, rows: Seq<DateRow>) -> Seq<ReportView> {
    match (lookup(rows, d.predecessor_id), lookup(rows, d.successor_id)) {
        (Some(p), Some(s)) => match (p.end, s.start) {
            (Some(pe), Some(ss)) => {
                if d.dependency_type == DependencyType::FinishToStart {
                    if pe > ss { seq![impossible_report(d, pe, ss, "finishes"@)] } else { Seq::empty() }
                } else if d.dependency_type == DependencyType::StartToStart {
                    match p.start {
                        Some(ps) => if ps > ss { seq![impossible_report(d, ps, ss, "starts"@)] } else { Seq::empty() },
                        None => Seq::empty(),
                    }
                } else {
                    Seq::empty()
                }
            },
            _ => Seq::empty(),
        },
        _ => Seq::empty(),
    }
}

/// The reports on the first `k` dependencies of a list.
pub open spec fn list_reports(list: Seq<DependencyView>, rows: Seq<DateRow>, k: int) -> Seq<ReportView>
    decreases k,
{
    if k <= 0 {
        Seq::empty()
    } else {
        list_reports(list, rows, k - 1) + dependency_reports(list[k - 1], rows)
    }
}

/// The reports on the dependencies filed under the first `i` tasks of the graph.
pub open spec fn impossible_reports_upto(g: GraphModel, rows: Seq<DateRow>, i: int) -> Seq<ReportView>
    decreases i,
{
    if i <= 0 {
        Seq::empty()
    } else {
        impossible_reports_upto(g, rows, i - 1) + list_reports(g.deps[i - 1], rows, g.deps[i - 1].len() as int)
    }
}

/// The reports on every dependency of the graph, in the order of their predecessors.
pub open spec fn impossible_reports(g: GraphModel, rows: Seq<DateRow>) -> Seq<ReportView> {
    impossible_reports_upto(g, rows, g.nodes.len() as int)
}

proof fn lemma_concat_contains<A>(a: Seq<A>, b: Seq<A>, x: A)
    requires
        a.contains(x) || b.contains(x),
    ensures
        (a + b).contains(x),
{
    if a.contains(x) {
        let i = choose|i: int| 0 <= i < a.len() && a[i] == x;
        assert((a + b)[i] == x);
    } else {
        let i = choose|i: int| 0 <= i < b.len() && b[i] == x;
        assert((a + b)[a.len() + i] == x);
    }
}

proof fn lemma_list_reports_has(list: Seq<DependencyView>, rows: Seq<DateRow>, k: int, j: int, r: ReportView)
    requires
        0 <= j < k <= list.len(),
        dependency_reports(list[j], rows).contains(r),
    ensures
        list_reports(list, rows, k).contains(r),
    decreases k,
{
    if j < k - 1 {
        lemma_list_reports_has(list, rows, k - 1, j, r);
    }
    lemma_concat_contains(list_reports(list, rows, k - 1), dependency_reports(list[k - 1], rows), r);
}

proof fn lemma_reports_upto_has(g: GraphModel, rows: Seq<DateRow>, n: int, i: int, k: int, r: ReportView)
    requires
        0 <= i < n,
        0 <= k < g.deps[i].len(),
        dependency_reports(g.deps[i][k], rows).contains(r),
    ensures
        impossible_reports_upto(g, rows, n).contains(r),
    decreases n,
{
    if i < n - 1 {
        lemma_reports_upto_has(g, rows, n - 1, i, k, r);
    } else {
        lemma_list_reports_has(g.deps[i], rows, g.deps[i].len() as int, k, r);
    }
    lemma_concat_contains(
        impossible_reports_upto(g, rows, n - 1),
        list_reports(g.deps[n - 1], rows, g.deps[n - 1].len() as int),
        r,
    );
}

/// Law: a dependency of the graph that the calculated dates contradict is reported as
/// impossible and critical, with the two dates compared: a finish-to-start one whose
/// predecessor ends after its successor starts, and a start-to-start one whose
/// predecessor starts after its successor starts (both tasks calculated, with the
/// predecessor's end and the successor's start known).
pub proof fn lemma_contradicted_dependency_is_reported(g: GraphModel, rows: Seq<DateRow>, i: int, k: int)
    requires
        0 <= i < g.nodes.len(),
        0 <= k < g.deps[i].len(),
        ({
            let d = g.deps[i][k];
            lookup(rows, d.predecessor_id) matches Some(p) && lookup(rows, d.successor_id) matches Some(s)
                && p.end is Some && s.start is Some
        }),
    ensures
        ({
            let d = g.deps[i][k];
            let p = lookup(rows, d.predecessor_id)->Some_0;
            let s = lookup(rows, d.successor_id)->Some_0;
            let ss = s.start->Some_0;
            &&& (d.dependency_type == DependencyType::FinishToStart && p.end->Some_0 > ss) ==> exists|r: ReportView|
                #[trigger] impossible_reports(g, rows).contains(r)
                && r.kind == ConflictKind::ImpossibleDependency(d.predecessor_id, d.successor_id, p.end->Some_0, ss)
                && r.severity == ConflictSeverity::Critical && r.affected == seq![d.predecessor_id, d.successor_id]
            &&& (d.dependency_type == DependencyType::StartToStart && p.start is Some && p.start->Some_0 > ss) ==> exists|r: ReportView|
                #[trigger] impossible_reports(g, rows).contains(r)
                && r.kind == ConflictKind::ImpossibleDependency(d.predecessor_id, d.successor_id, p.start->Some_0, ss)
                && r.severity == ConflictSeverity::Critical && r.affected == seq![d.predecessor_id, d.successor_id]
        }),
{
    let d = g.deps[i][k];
    let p = lookup(rows, d.predecessor_id)->Some_0;
    let s = lookup(rows, d.successor_id)->Some_0;
    let ss = s.start->Some_0;
    if d.dependency_type == DependencyType::FinishToStart && p.end->Some_0 > ss {
        let r = impossible_report(d, p.end->Some_0, ss, "finishes"@);
        assert(dependency_reports(d, rows) == seq![r]);
        assert(seq![r][0] == r);
        assert(dependency_reports(d, rows).contains(r));
        lemma_reports_upto_has(g, rows, g.nodes.len() as int, i, k, r);
        assert(impossible_reports(g, rows).contains(r));
        assert(r.kind == ConflictKind::ImpossibleDependency(d.predecessor_id, d.successor_id, p.end->Some_0, ss));
        assert(r.affected == seq![d.predecessor_id, d.successor_id]);
    }
    if d.dependency_type == DependencyType::StartToStart && p.start is Some && p.start->Some_0 > ss {
        let r = impossible_report(d, p.start->Some_0, ss, "starts"@);
        assert(dependency_reports(d, rows) == seq![r]);
        assert(seq![r][0] == r);
        assert(dependency_reports(d, rows).contains(r));
        lemma_reports_upto_has(g, rows, g.nodes.len() as int, i, k, r);
        assert(impossible_reports(g, rows).contains(r));
        assert(r.kind == ConflictKind::ImpossibleDependency(d.predecessor_id, d.successor_id, p.start->Some_0, ss));
        assert(r.affected == seq![d.predecessor_id, d.successor_id]);
    }
}

/// Law: a start-to-start dependency whose predecessor, by the calculated dates, starts
/// after its successor starts is among the conflicts that validating the graph finds,
/// as an impossible dependency with those two dates (both tasks calculated, with the
/// predecessor's end and the successor's start known).
pub proof fn lemma_validation_reports_start_to_start(c: ValidationConfig, g: GraphModel, rs: Seq<CalculationResult>, i: int, k: int)
    requires
        0 <= i < g.nodes.len(),
        0 <= k < g.deps[i].len(),
        g.deps[i][k].dependency_type == DependencyType::StartToStart,
        ({
            let d = g.deps[i][k];
            let rows = rows_of(rs);
            lookup(rows, d.predecessor_id) matches Some(p) && lookup(rows, d.successor_id) matches Some(s)
                && p.end is Some && s.start is Some && p.start is Some && p.start->Some_0 > s.start->Some_0
        }),
    ensures
        ({
            let d = g.deps[i][k];
            let rows = rows_of(rs);
            let ps = lookup(rows, d.predecessor_id)->Some_0.start->Some_0;
            let ss = lookup(rows, d.successor_id)->Some_0.start->Some_0;
            exists|r: ReportView| #[trigger] expected_conflicts(c, g, rs).contains(r)
                && r.kind == ConflictKind::ImpossibleDependency(d.predecessor_id, d.successor_id, ps, ss)
                && r.severity == ConflictSeverity::Critical
        }),
{
    let rows = rows_of(rs);
    lemma_contradicted_dependency_is_reported(g, rows, i, k);
    let d = g.deps[i][k];
    let ps = lookup(rows, d.predecessor_id)->Some_0.start->Some_0;
    let ss = lookup(rows, d.successor_id)->Some_0.start->Some_0;
    let r = choose|r: ReportView| #[trigger] impossible_reports(g, rows).contains(r)
        && r.kind == ConflictKind::ImpossibleDependency(d.predecessor_id, d.successor_id, ps, ss)
        && r.severity == ConflictSeverity::Critical && r.affected == seq![d.predecessor_id, d.successor_id];
    let front = (if c.date_overlap_check { overlap_reports(rows) } else { Seq::empty() })
        + (if c.time_constraint_check { time_reports(rs) } else { Seq::empty() });
    lemma_concat_contains(front, impossible_reports(g, rows), r);
    assert(expected_conflicts(c, g, rs) == front + impossible_reports(g, rows));
}

/// Every conflict that a validation finds, in the order in which it reports them:
/// overlaps, then unmet dependencies, then contradicted dependencies.
pub open spec fn expected_conflicts(c: ValidationConfig, g: GraphModel, rs: Seq<CalculationResult>) -> Seq<ReportView> {
    (if c.date_overlap_check { overlap_reports(rows_of(rs)) } else { Seq::empty() })
        + (if c.time_constraint_check { time_reports(rs) } else { Seq::empty() })
        + impossible_reports(g, rows_of(rs))
}

/// Which error, if any, the check of a dependency before adding it meets: `(field, message)`.
pub open spec fn dependency_problem(g: GraphModel, d: DependencyView) -> Option<(Seq<char>, Seq<char>)> {
    if d.successor_id == d.predecessor_id || g.reaches(d.successor_id, d.predecessor_id) {
        Some(("dependency"@, "Adding this dependency would create a circular dependency"@))
    } else if !g.has_node(d.predecessor_id) {
        Some(("predecessor_id"@, "Predecessor task does not exist"@))
    } else if !g.has_node(d.successor_id) {
        Some(("successor_id"@, "Successor task does not exist"@))
    } else if g.edge(d.predecessor_id, d.successor_id) {
        Some(("dependency"@, "Dependency already exists"@))
    } else {
        None
    }
}

/// The number of reports of a severity.
pub open spec fn count_severity(s: Seq<ReportView>, sev: ConflictSeverity) -> nat
    decreases s.len(),
{
    if s.len() == 0 {
        0
    } else {
        count_severity(s.drop_last(), sev) + if s.last().severity == sev { 1nat } else { 0nat }
    }
}

/// The values that `ValidationConfig::default` gives: every check on, no tolerance,
/// and a capacity of 100 percent.
pub open spec fn default_validation_config() -> ValidationConfig {
    ValidationConfig {
        circular_dependency_check: true,
        date_overlap_check: true,
        resource_conflict_check: true,
        resource_capacity_check: true,
        time_constraint_check: true,
        date_tolerance_days: 0,
        max_resource_capacity: 100,
    }
}

// ============================================================================
// BUILDING REPORTS
// ============================================================================

/// A task with both dates calculated.
struct DateRange {
    task_id: String,
    start: Date,
    end: Date,
}

spec fn range_row(r: DateRange) -> DateRow {
    DateRow { id: r.task_id@, start: Some(r.start.day()), end: Some(r.end.day()) }
}

spec fn range_ok(r: DateRange) -> bool {
    r.start.wf() && r.end.wf()
}

/// A list of two strings.
fn two_strings(a: &String, b: &String) -> (r: Vec<String>)
    ensures
        r@.map_values(|s: String| s@) == seq![a@, b@],
{
    let mut r: Vec<String> = Vec::new();
    r.push(a.clone());
    r.push(b.clone());
    proof {
        assert(r@.map_values(|s: String| s@) =~= seq![a@, b@]);
    }
    r
}

/// A list of three strings made from text.
fn three_texts(a: &str, b: &str, c: &str) -> (r: Vec<String>)
    ensures
        r@.map_values(|s: String| s@) == seq![a@, b@, c@],
{
    let mut r: Vec<String> = Vec::new();
    r.push(String::from_str(a));
    r.push(String::from_str(b));
    r.push(String::from_str(c));
    proof {
        assert(r@.map_values(|s: String| s@) =~= seq![a@, b@, c@]);
    }
    r
}

fn overlap_conflict(a: &DateRange, b: &DateRange) -> (r: ConflictReport)
    requires
        range_ok(*a),
        range_ok(*b),
    ensures
        r@ == overlap_report(range_row(*a), range_row(*b)),
{
    let message = String::from_str("Date overlap between tasks ")
        .concat(a.task_id.as_str())
        .concat(" and ")
        .concat(b.task_id.as_str())
        .concat(": ")
        .concat(a.start.to_iso_string().as_str())
        .concat(" - ")
        .concat(a.end.to_iso_string().as_str())
        .concat(" overlaps with ")
        .concat(b.start.to_iso_string().as_str())
        .concat(" - ")
        .concat(b.end.to_iso_string().as_str());
    ConflictReport {
        conflict_type: ConflictType::DateOverlap(a.task_id.clone(), b.task_id.clone(), a.start, a.end),
        severity: ConflictSeverity::Warning,
        message,
        affected_tasks: two_strings(&a.task_id, &b.task_id),
        suggested_fixes: three_texts(
            "Adjust task dates to avoid overlap",
            "Add dependency between tasks",
            "Modify task durations",
        ),
        detected_at: now_millis(),
    }
}

fn unsatisfied_conflict(id: &String) -> (r: ConflictReport)
    ensures
        r@ == unsatisfied_report(id@),
{
    let mut affected: Vec<String> = Vec::new();
    affected.push(id.clone());
    let mut fixes: Vec<String> = Vec::new();
    fixes.push(String::from_str("Check predecessor task completion"));
    fixes.push(String::from_str("Verify dependency relationships"));
    let r = ConflictReport {
        conflict_type: ConflictType::TimeConstraintViolation(
            id.clone(),
            String::from_str("dependencies"),
            String::from_str("not_satisfied"),
        ),
        severity: ConflictSeverity::Critical,
        message: String::from_str("Dependencies not satisfied for task ").concat(id.as_str()),
        affected_tasks: affected,
        suggested_fixes: fixes,
        detected_at: now_millis(),
    };
    proof {
        assert(r@.affected =~= seq![id@]);
        assert(r@.fixes =~= seq!["Check predecessor task completion"@, "Verify dependency relationships"@]);
    }
    r
}

fn impossible_conflict(d: &AdvancedDependency, pred_day: Date, succ_day: Date, verb: &str) -> (r: ConflictReport)
    requires
        pred_day.wf(),
        succ_day.wf(),
    ensures
        r@ == impossible_report(d@, pred_day.day(), succ_day.day(), verb@),
{
    let message = String::from_str("Impossible dependency: ")
        .concat(d.predecessor_id.as_str())
        .concat(" ")
        .concat(verb)
        .concat(" after ")
        .concat(d.successor_id.as_str())
        .concat(" starts (")
        .concat(pred_day.to_iso_string().as_str())
        .concat(" > ")
        .concat(succ_day.to_iso_string().as_str())
        .concat(")");
    ConflictReport {
        conflict_type: ConflictType::ImpossibleDependency(
            d.predecessor_id.clone(),
            d.successor_id.clone(),
            pred_day,
            succ_day,
        ),
        severity: ConflictSeverity::Critical,
        message,
        affected_tasks: two_strings(&d.predecessor_id, &d.successor_id),
        suggested_fixes: three_texts("Adjust task dates", "Change dependency type", "Add lag to dependency"),
        detected_at: now_millis(),
    }
}

/// Checks one dependency against the calculated dates.
fn check_dependency(d: &AdvancedDependency, results: &Vec<CalculationResult>) -> (r: Option<ConflictReport>)
    requires
        results_wf(results@),
    ensures
        match r {
            Some(c) => dependency_reports(d@, rows_of(results@)) == seq![c@],
            None => dependency_reports(d@, rows_of(results@)) == Seq::<ReportView>::empty(),
        },
{
    let ghost rows = rows_of(results@);
    match (find_result(results, d.predecessor_id.as_str()), find_result(results, d.successor_id.as_str())) {
        (Some(pi), Some(si)) => {
            let p = &results[pi];
            let s = &results[si];
            assert(results_wf(results@));
            assert(results@[pi as int] == *p);
            assert(results@[si as int] == *s);
            match (p.calculated_end_date, s.calculated_start_date) {
                (Some(pe), Some(ss)) => match d.dependency_type {
                    DependencyType::FinishToStart => {
                        if ss.before(&pe) {
                            Some(impossible_conflict(d, pe, ss, "finishes"))
                        } else {
                            None
                        }
                    },
                    DependencyType::StartToStart => match p.calculated_start_date {
                        Some(ps) => {
                            if ss.before(&ps) {
                                Some(impossible_conflict(d, ps, ss, "starts"))
                            } else {
                                None
                            }
                        },
                        None => None,
                    },
                    _ => None,
                },
                _ => None,
            }
        },
        _ => None,
    }
}

// ============================================================================
// THE VALIDATION SYSTEM
// ============================================================================

/// Validates dependency graphs and calculated dates, and keeps every conflict it found.
#[derive(Debug)]
pub struct ConflictValidationSystem {
    config: ValidationConfig,
    conflict_history: Vec<ConflictReport>,
}

impl ConflictValidationSystem {
    /// The settings in force.
    pub closed spec fn settings(&self) -> ValidationConfig {
        self.config
    }

    /// Every conflict found so far, oldest first.
    pub closed spec fn history(&self) -> Seq<ReportView> {
        report_views(self.conflict_history@)
    }

    /// A system with the given settings and no history.
    pub fn new(config: ValidationConfig) -> (s: ConflictValidationSystem)
        ensures
            s.settings() == config,
            s.history() == Seq::<ReportView>::empty(),
    {
        let s = ConflictValidationSystem { config, conflict_history: Vec::new() };
        proof {
            assert(s.history() =~= Seq::<ReportView>::empty());
        }
        s
    }

    /// A system with the default settings and no history.
    pub fn with_default_config() -> (s: ConflictValidationSystem)
        ensures
            s.settings() == default_validation_config(),
            s.history() == Seq::<ReportView>::empty(),
    {
        Self::new(ValidationConfig::default())
    }
}

impl ConflictValidationSystem {
    /// Cycles of dependencies. A graph never holds one: every dependency is checked
    /// before it is added, and new tasks and removals keep the graph free of cycles.
    /// So there is nothing to report.
    fn detect_circular_dependencies(&self, graph: &AdvancedDependencyGraph) -> (r: Option<Vec<ConflictReport>>)
        requires
            graph.wf(),
        ensures
            r is None,
            graph@.acyclic(),
    {
        proof {
            graph.lemma_wf();
        }
        None
    }

    /// Every pair of tasks, among those with both dates calculated, whose date
    /// ranges share a day.
    fn detect_date_overlaps(&self, calculation_results: &Vec<CalculationResult>) -> (r: Option<Vec<ConflictReport>>)
        requires
            results_wf(calculation_results@),
        ensures
            match r {
                Some(v) => report_views(v@) == overlap_reports(rows_of(calculation_results@)) && v@.len() > 0,
                None => overlap_reports(rows_of(calculation_results@)).len() == 0,
            },
    {
        let ghost rows = rows_of(calculation_results@);
        let mut ranges: Vec<DateRange> = Vec::new();
        let mut i: usize = 0;
        while i < calculation_results.len()
            invariant
                0 <= i <= calculation_results.len(),
                rows == rows_of(calculation_results@),
                results_wf(calculation_results@),
                ranges@.map_values(|x: DateRange| range_row(x)) == dated(rows.take(i as int)),
                forall|k: int| 0 <= k < ranges@.len() ==> range_ok(#[trigger] ranges@[k]),
            decreases calculation_results.len() - i,
        {
            let r = &calculation_results[i];
            proof {
                assert(rows.take(i + 1).drop_last() =~= rows.take(i as int));
                assert(rows.take(i + 1).last() == rows[i as int]);
                assert(rows[i as int] == row_of(calculation_results@[i as int]));
                assert(calculation_results@[i as int] == *r);
            }
            match (r.calculated_start_date, r.calculated_end_date) {
                (Some(s), Some(e)) => {
                    let ghost before = ranges@;
                    ranges.push(DateRange { task_id: r.task_id.clone(), start: s, end: e });
                    proof {
                        assert(ranges@.map_values(|x: DateRange| range_row(x))
                            =~= before.map_values(|x: DateRange| range_row(x)).push(rows[i as int]));
                    }
                },
                _ => {},
            }
            i = i + 1;
        }
        proof {
            assert(rows.take(calculation_results.len() as int) =~= rows);
        }
        let ghost dr = dated(rows);
        let n = ranges.len();
        let mut conflicts: Vec<ConflictReport> = Vec::new();
        let mut a: usize = 0;
        while a < n
            invariant
                0 <= a <= n,
                n == ranges@.len(),
                dr == ranges@.map_values(|x: DateRange| range_row(x)),
                forall|k: int| 0 <= k < ranges@.len() ==> range_ok(#[trigger] ranges@[k]),
                report_views(conflicts@) == overlap_reports_upto(dr, a as int),
            decreases n - a,
        {
            let mut b: usize = a + 1;
            proof {
                assert(overlap_reports_upto(dr, a as int) + pair_reports(dr, a as int, b as int)
                    =~= overlap_reports_upto(dr, a as int));
            }
            while b < n
                invariant
                    a < n,
                    a + 1 <= b <= n,
                    n == ranges@.len(),
                    dr == ranges@.map_values(|x: DateRange| range_row(x)),
                    forall|k: int| 0 <= k < ranges@.len() ==> range_ok(#[trigger] ranges@[k]),
                    report_views(conflicts@) == overlap_reports_upto(dr, a as int) + pair_reports(dr, a as int, b as int),
                decreases n - b,
            {
                let x = &ranges[a];
                let y = &ranges[b];
                proof {
                    assert(dr[a as int] == range_row(*x));
                    assert(dr[b as int] == range_row(*y));
                    assert(range_ok(ranges@[a as int]) && range_ok(ranges@[b as int]));
                }
                let ghost before = conflicts@;
                if x.start.day_number() <= y.end.day_number() && y.start.day_number() <= x.end.day_number() {
                    let c = overlap_conflict(x, y);
                    conflicts.push(c);
                    proof {
                        assert(report_views(conflicts@) =~= report_views(before).push(c@));
                    }
                }
                proof {
                    assert(overlap_reports_upto(dr, a as int) + pair_reports(dr, a as int, b + 1)
                        =~= report_views(conflicts@));
                }
                b = b + 1;
            }
            a = a + 1;
        }
        if conflicts.len() == 0 {
            None
        } else {
            Some(conflicts)
        }
    }

    /// Resource conflicts: the graph carries no resources, so there is nothing to report.
    fn detect_resource_conflicts(
        &self,
        _graph: &AdvancedDependencyGraph,
        _calculation_results: &Vec<CalculationResult>,
    ) -> (r: Option<Vec<ConflictReport>>)
        ensures
            r is None,
    {
        None
    }

    /// Resource capacity: the graph carries no resources, so there is nothing to report.
    fn detect_capacity_conflicts(
        &self,
        _graph: &AdvancedDependencyGraph,
        _calculation_results: &Vec<CalculationResult>,
    ) -> (r: Option<Vec<ConflictReport>>)
        ensures
            r is None,
    {
        None
    }

    /// One conflict for each task whose dependencies are not satisfied.
    fn detect_time_constraint_violations(
        &self,
        _graph: &AdvancedDependencyGraph,
        calculation_results: &Vec<CalculationResult>,
    ) -> (r: Option<Vec<ConflictReport>>)
        ensures
            match r {
                Some(v) => report_views(v@) == time_reports(calculation_results@) && v@.len() > 0,
                None => time_reports(calculation_results@).len() == 0,
            },
    {
        let ghost rs = calculation_results@;
        let mut conflicts: Vec<ConflictReport> = Vec::new();
        let mut i: usize = 0;
        proof {
            assert(report_views(conflicts@) =~= time_reports(rs.take(0)));
        }
        while i < calculation_results.len()
            invariant
                0 <= i <= calculation_results.len(),
                rs == calculation_results@,
                report_views(conflicts@) == time_reports(rs.take(i as int)),
            decreases calculation_results.len() - i,
        {
            let r = &calculation_results[i];
            proof {
                assert(rs.take(i + 1).drop_last() =~= rs.take(i as int));
                assert(rs.take(i + 1).last() == rs[i as int]);
            }
            if !r.dependencies_satisfied {
                let ghost before = conflicts@;
                let c = unsatisfied_conflict(&r.task_id);
                conflicts.push(c);
                proof {
                    assert(report_views(conflicts@) =~= report_views(before).push(c@));
                }
            }
            i = i + 1;
        }
        proof {
            assert(rs.take(calculation_results.len() as int) =~= rs);
        }
        if conflicts.len() == 0 {
            None
        } else {
            Some(conflicts)
        }
    }

    /// Every dependency that the calculated dates contradict.
    fn detect_impossible_dependencies(
        &self,
        graph: &AdvancedDependencyGraph,
        calculation_results: &Vec<CalculationResult>,
    ) -> (r: Option<Vec<ConflictReport>>)
        requires
            graph.wf(),
            results_wf(calculation_results@),
        ensures
            match r {
                Some(v) => report_views(v@) == impossible_reports(graph@, rows_of(calculation_results@)) && v@.len() > 0,
                None => impossible_reports(graph@, rows_of(calculation_results@)).len() == 0,
            },
    {
        let ghost g = graph@;
        let ghost rows = rows_of(calculation_results@);
        proof {
            graph.lemma_wf();
        }
        let n = graph.node_count();
        let mut conflicts: Vec<ConflictReport> = Vec::new();
        let mut i: usize = 0;
        while i < n
            invariant
                graph.wf(),
                g == graph@,
                g.wf(),
                rows == rows_of(calculation_results@),
                results_wf(calculation_results@),
                n == g.nodes.len(),
                0 <= i <= n,
                report_views(conflicts@) == impossible_reports_upto(g, rows, i as int),
            decreases n - i,
        {
            let m = graph.dependency_count_at(i);
            let mut k: usize = 0;
            proof {
                assert(impossible_reports_upto(g, rows, i as int) + list_reports(g.deps[i as int], rows, 0)
                    =~= impossible_reports_upto(g, rows, i as int));
            }
            while k < m
                invariant
                    graph.wf(),
                    g == graph@,
                    g.wf(),
                    rows == rows_of(calculation_results@),
                    results_wf(calculation_results@),
                    n == g.nodes.len(),
                    i < n,
                    m == g.deps[i as int].len(),
                    0 <= k <= m,
                    report_views(conflicts@) == impossible_reports_upto(g, rows, i as int)
                        + list_reports(g.deps[i as int], rows, k as int),
                decreases m - k,
            {
                let d = graph.dependency_at(i, k);
                let ghost before = conflicts@;
                match check_dependency(d, calculation_results) {
                    Some(c) => {
                        conflicts.push(c);
                        proof {
                            assert(report_views(conflicts@) =~= report_views(before) + seq![c@]);
                        }
                    },
                    None => {
                        proof {
                            assert(report_views(before) + Seq::<ReportView>::empty() =~= report_views(before));
                        }
                    },
                }
                proof {
                    assert(list_reports(g.deps[i as int], rows, k + 1)
                        == list_reports(g.deps[i as int], rows, k as int) + dependency_reports(g.deps[i as int][k as int], rows));
                    assert(report_views(conflicts@) =~= impossible_reports_upto(g, rows, i as int)
                        + list_reports(g.deps[i as int], rows, k + 1));
                }
                k = k + 1;
            }
            i = i + 1;
        }
        if conflicts.len() == 0 {
            None
        } else {
            Some(conflicts)
        }
    }
}

/// Appends a list of reports to another.
fn append_reports(to: &mut Vec<ConflictReport>, from: Option<Vec<ConflictReport>>)
    ensures
        report_views(final(to)@) == report_views(old(to)@) + match from {
            Some(v) => report_views(v@),
            None => Seq::<ReportView>::empty(),
        },
{
    let ghost before = to@;
    match from {
        Some(v) => {
            let mut v = v;
            let ghost added = v@;
            to.append(&mut v);
            proof {
                assert(report_views(to@) =~= report_views(before) + report_views(added));
            }
        },
        None => {
            proof {
                assert(report_views(to@) =~= report_views(before) + Seq::<ReportView>::empty());
            }
        },
    }
}

impl ConflictValidationSystem {
    /// Validates a graph and the dates calculated for it. The checks that the settings
    /// enable run in turn: cycles (a graph never holds one), overlapping dates,
    /// resources (the graph carries none), unmet dependencies; the check of
    /// dependencies against the dates always runs. Without any conflict the result is
    /// `Valid`; otherwise it is `Invalid` with every conflict, which also join the history.
    pub fn validate_graph(
        &mut self,
        graph: &AdvancedDependencyGraph,
        calculation_results: &Vec<CalculationResult>,
    ) -> (r: ValidationStatus)
        requires
            graph.wf(),
            results_wf(calculation_results@),
        ensures
            final(self).settings() == old(self).settings(),
            ({
                let all = expected_conflicts(old(self).settings(), graph@, calculation_results@);
                &&& all.len() == 0 ==> r is Valid && final(self).history() == old(self).history()
                &&& all.len() > 0 ==> (r matches ValidationStatus::Invalid(cs) && report_views(cs@) == all
                    && final(self).history() == old(self).history() + all)
            }),
    {
        let ghost c = self.config;
        let ghost rows = rows_of(calculation_results@);
        let mut conflicts: Vec<ConflictReport> = Vec::new();
        if self.config.circular_dependency_check {
            let found = self.detect_circular_dependencies(graph);
            append_reports(&mut conflicts, found);
        }
        let ghost after_cycles = report_views(conflicts@);
        assert(after_cycles =~= Seq::<ReportView>::empty());
        if self.config.date_overlap_check {
            let found = self.detect_date_overlaps(calculation_results);
            append_reports(&mut conflicts, found);
        }
        assert(report_views(conflicts@) =~= if c.date_overlap_check { overlap_reports(rows) } else { Seq::empty() });
        if self.config.resource_conflict_check {
            let found = self.detect_resource_conflicts(graph, calculation_results);
            append_reports(&mut conflicts, found);
        }
        if self.config.resource_capacity_check {
            let found = self.detect_capacity_conflicts(graph, calculation_results);
            append_reports(&mut conflicts, found);
        }
        assert(report_views(conflicts@) =~= if c.date_overlap_check { overlap_reports(rows) } else { Seq::empty() });
        if self.config.time_constraint_check {
            let found = self.detect_time_constraint_violations(graph, calculation_results);
            append_reports(&mut conflicts, found);
        }
        let found = self.detect_impossible_dependencies(graph, calculation_results);
        append_reports(&mut conflicts, found);
        assert(report_views(conflicts@) =~= expected_conflicts(c, graph@, calculation_results@));
        if conflicts.len() == 0 {
            ValidationStatus::Valid
        } else {
            let ghost h0 = report_views(self.conflict_history@);
            let mut j: usize = 0;
            while j < conflicts.len()
                invariant
                    0 <= j <= conflicts.len(),
                    self.config == c,
                    report_views(self.conflict_history@) == h0 + report_views(conflicts@.take(j as int)),
                decreases conflicts.len() - j,
            {
                let ghost hb = self.conflict_history@;
                let copy = conflicts[j].clone();
                self.conflict_history.push(copy);
                proof {
                    assert(report_views(conflicts@.take(j + 1)) =~= report_views(conflicts@.take(j as int)).push(conflicts@[j as int]@));
                    assert(report_views(self.conflict_history@) =~= report_views(hb).push(copy@));
                }
                j = j + 1;
            }
            proof {
                assert(conflicts@.take(conflicts.len() as int) =~= conflicts@);
            }
            ValidationStatus::Invalid(conflicts)
        }
    }

    /// Checks a dependency before it is added: it must not close a cycle, both tasks
    /// must exist, and it must not exist already.
    pub fn validate_dependency(
        &self,
        dependency: &AdvancedDependency,
        graph: &AdvancedDependencyGraph,
    ) -> (r: Result<(), DomainError>)
        requires
            graph.wf(),
        ensures
            match dependency_problem(graph@, dependency@) {
                Some((f, m)) => r matches Err(e) && e.is_validation(f, m),
                None => r is Ok,
            },
    {
        if self.would_create_cycle(dependency, graph) {
            return Err(DomainError::validation(
                "dependency",
                "Adding this dependency would create a circular dependency",
            ));
        }
        if !graph.contains_task(dependency.predecessor_id.as_str()) {
            return Err(DomainError::validation("predecessor_id", "Predecessor task does not exist"));
        }
        if !graph.contains_task(dependency.successor_id.as_str()) {
            return Err(DomainError::validation("successor_id", "Successor task does not exist"));
        }
        if graph.has_dependency(dependency.predecessor_id.as_str(), dependency.successor_id.as_str()) {
            return Err(DomainError::validation("dependency", "Dependency already exists"));
        }
        Ok(())
    }

    /// Whether adding the dependency would close a cycle: whether it links a task to
    /// itself, or its successor already leads to its predecessor.
    fn would_create_cycle(&self, dependency: &AdvancedDependency, graph: &AdvancedDependencyGraph) -> (b: bool)
        requires
            graph.wf(),
        ensures
            b == (dependency@.successor_id == dependency@.predecessor_id
                || graph@.reaches(dependency@.successor_id, dependency@.predecessor_id)),
    {
        if crate::text::str_eq(dependency.successor_id.as_str(), dependency.predecessor_id.as_str()) {
            return true;
        }
        graph.is_predecessor(dependency.successor_id.as_str(), dependency.predecessor_id.as_str())
    }

    /// Every conflict found so far, oldest first.
    pub fn get_conflict_history(&self) -> (r: &[ConflictReport])
        ensures
            report_views(r@) == self.history(),
    {
        self.conflict_history.as_slice()
    }

    /// Forgets every conflict found so far.
    pub fn clear_history(&mut self)
        ensures
            final(self).history() == Seq::<ReportView>::empty(),
            final(self).settings() == old(self).settings(),
    {
        self.conflict_history.clear();
        proof {
            assert(self.history() =~= Seq::<ReportView>::empty());
        }
    }

    /// Replaces the settings.
    pub fn update_config(&mut self, config: ValidationConfig)
        ensures
            final(self).settings() == config,
            final(self).history() == old(self).history(),
    {
        self.config = config;
    }

    /// The number of conflicts found so far: in all, critical ones, and warnings.
    pub fn get_validation_stats(&self) -> (r: (usize, usize, usize))
        ensures
            r.0 == self.history().len(),
            r.1 == count_severity(self.history(), ConflictSeverity::Critical),
            r.2 == count_severity(self.history(), ConflictSeverity::Warning),
    {
        let ghost h = self.history();
        let mut critical: usize = 0;
        let mut warning: usize = 0;
        let mut i: usize = 0;
        while i < self.conflict_history.len()
            invariant
                h == self.history(),
                h.len() == self.conflict_history@.len(),
                0 <= i <= self.conflict_history.len(),
                critical == count_severity(h.take(i as int), ConflictSeverity::Critical),
                warning == count_severity(h.take(i as int), ConflictSeverity::Warning),
                critical <= i,
                warning <= i,
            decreases self.conflict_history.len() - i,
        {
            proof {
                assert(h.take(i + 1).drop_last() =~= h.take(i as int));
                assert(h.take(i + 1).last() == self.conflict_history@[i as int]@);
            }
            match self.conflict_history[i].severity {
                ConflictSeverity::Critical => {
                    critical = critical + 1;
                },
                ConflictSeverity::Warning => {
                    warning = warning + 1;
                },
                ConflictSeverity::Info => {},
            }
            i = i + 1;
        }
        proof {
            assert(h.take(self.conflict_history.len() as int) =~= h);
        }
        (self.conflict_history.len(), critical, warning)
    }
}

} // verus!
