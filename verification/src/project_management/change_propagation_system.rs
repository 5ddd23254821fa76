//! Propagation of changes to tasks: a change is checked, applied to the dependency
//! graph, its effect on the dates of every task is recalculated, and it can be
//! reverted.

use vstd::prelude::*;
use crate::dates::{Date, in_range};
use crate::errors::DomainError;
use crate::project_management::advanced_dependencies::{
    AdvancedDependency, AdvancedDependencyGraph, DependencyType, GraphModel, LagType, dependency_error,
    now_millis, same_shape,
};
use crate::project_management::dependency_calculation_engine::{
    CalculationConfig, CalculationResult, DateRow, DependencyCalculationEngine, is_topological_order, results_wf,
    rows_of, run_dates,
};
use crate::text::{str_eq, views};

verus! {

// ============================================================================
// TYPES
// ============================================================================

/// A change to a task or to a dependency. Durations are in days.
#[derive(Debug, PartialEq, Eq)]
pub enum ChangeType {
    /// Task, new start date, old start date.
    StartDateChanged(String, Date, Date),
    /// Task, new end date, old end date.
    EndDateChanged(String, Date, Date),
    /// Task, new duration, old duration.
    DurationChanged(String, i64, i64),
    /// Task, old type, new type.
    DependencyTypeChanged(String, DependencyType, DependencyType),
    /// Task, old lag, new lag.
    DependencyLagChanged(String, LagType, LagType),
    DependencyAdded(AdvancedDependency),
    /// Predecessor, successor.
    DependencyRemoved(String, String),
    PriorityChanged(String, String),
    StatusChanged(String, String),
}

impl Clone for ChangeType {
    fn clone(&self) -> (r: Self)
        ensures
            r == *self,
    {
        match self {
            ChangeType::StartDateChanged(t, a, b) => ChangeType::StartDateChanged(t.clone(), *a, *b),
            ChangeType::EndDateChanged(t, a, b) => ChangeType::EndDateChanged(t.clone(), *a, *b),
            ChangeType::DurationChanged(t, a, b) => ChangeType::DurationChanged(t.clone(), *a, *b),
            ChangeType::DependencyTypeChanged(t, a, b) => ChangeType::DependencyTypeChanged(t.clone(), *a, *b),
            ChangeType::DependencyLagChanged(t, a, b) => ChangeType::DependencyLagChanged(t.clone(), *a, *b),
            ChangeType::DependencyAdded(d) => ChangeType::DependencyAdded(d.clone()),
            ChangeType::DependencyRemoved(p, s) => ChangeType::DependencyRemoved(p.clone(), s.clone()),
            ChangeType::PriorityChanged(t, p) => ChangeType::PriorityChanged(t.clone(), p.clone()),
            ChangeType::StatusChanged(t, s) => ChangeType::StatusChanged(t.clone(), s.clone()),
        }
    }
}

/// Where the propagation of a change stands.
#[derive(Debug, PartialEq, Eq)]
pub enum PropagationStatus {
    Pending,
    InProgress,
    Propagated,
    Failed(String),
    Reverted,
}

impl Clone for PropagationStatus {
    fn clone(&self) -> (r: Self)
        ensures
            r == *self,
    {
        match self {
            PropagationStatus::Pending => PropagationStatus::Pending,
            PropagationStatus::InProgress => PropagationStatus::InProgress,
            PropagationStatus::Propagated => PropagationStatus::Propagated,
            PropagationStatus::Failed(m) => PropagationStatus::Failed(m.clone()),
            PropagationStatus::Reverted => PropagationStatus::Reverted,
        }
    }
}

/// The record of a registered change.
#[derive(Debug)]
pub struct PropagationResult {
    pub change_id: String,
    pub change_type: ChangeType,
    pub status: PropagationStatus,
    pub affected_tasks: Vec<String>,
    /// When the change was propagated, in milliseconds since the Unix epoch.
    pub propagated_at: Option<i64>,
    pub error_message: Option<String>,
    pub rollback_available: bool,
}

/// A record with its texts as character sequences.
pub struct ResultView {
    pub change_id: Seq<char>,
    pub change_type: ChangeType,
    pub status: PropagationStatus,
    pub affected_tasks: Seq<Seq<char>>,
    pub propagated_at: Option<i64>,
    pub error_message: Option<Seq<char>>,
    pub rollback_available: bool,
}

impl View for PropagationResult {
    type V = ResultView;

    open spec fn view(&self) -> ResultView {
        ResultView {
            change_id: self.change_id@,
            change_type: self.change_type,
            status: self.status,
            affected_tasks: views(self.affected_tasks@),
            propagated_at: self.propagated_at,
            error_message: match self.error_message {
                Some(m) => Some(m@),
                None => None,
            },
            rollback_available: self.rollback_available,
        }
    }
}

impl Clone for PropagationResult {
    fn clone(&self) -> (r: Self)
        ensures
            r@ == self@,
    {
        let r = PropagationResult {
            change_id: self.change_id.clone(),
            change_type: self.change_type.clone(),
            status: self.status.clone(),
            affected_tasks: crate::text::copy_strings(&self.affected_tasks),
            propagated_at: self.propagated_at,
            error_message: match &self.error_message {
                Some(m) => Some(m.clone()),
                None => None,
            },
            rollback_available: self.rollback_available,
        };
        proof {
            assert(r@.affected_tasks =~= self@.affected_tasks);
        }
        r
    }
}

/// How changes are propagated.
#[derive(Debug, Clone, Copy, PartialEq, Eq)]
pub struct PropagationConfig {
    /// Whether a registered change is propagated at once.
    pub auto_propagate: bool,
    /// Whether the recalculated dates are checked for conflicts.
    pub conflict_validation: bool,
    /// Whether a change whose propagation fails is reverted.
    pub auto_rollback: bool,
    /// Time allowed for a propagation, in seconds.
    pub propagation_timeout: u64,
    /// How often a propagation may be tried.
    pub max_retries: u32,
    /// Whether notifications are sent.
    pub notifications_enabled: bool,
}

/// The default settings: everything on, 30 seconds, 3 tries.
pub open spec fn default_propagation_config() -> PropagationConfig {
    PropagationConfig {
        auto_propagate: true,
        conflict_validation: true,
        auto_rollback: true,
        propagation_timeout: 30,
        max_retries: 3,
        notifications_enabled: true,
    }
}

impl Default for PropagationConfig {
    fn default() -> (c: Self)
        ensures
            c == default_propagation_config(),
    {
        PropagationConfig {
            auto_propagate: true,
            conflict_validation: true,
            auto_rollback: true,
            propagation_timeout: 30,
            max_retries: 3,
            notifications_enabled: true,
        }
    }
}

// ============================================================================
// MODEL OF A CHANGE
// ============================================================================

/// Which error, if any, checking a change meets, given today's day number: the task
/// of a date change must exist and the new date must not lie in the past; an added
/// dependency must be valid and link two existing tasks. Other changes pass.
pub open spec fn change_problem(g: GraphModel, c: ChangeType, today: int) -> Option<(Seq<char>, Seq<char>)> {
    match c {
        ChangeType::StartDateChanged(t, new_date, _) => if !g.has_node(t@) {
            Some(("task_id"@, "Task "@ + t@ + " not found"@))
        } else if new_date.day() < today {
            Some(("start_date"@, "Start date cannot be in the past"@))
        } else {
            None
        },
        ChangeType::EndDateChanged(t, new_date, _) => if !g.has_node(t@) {
            Some(("task_id"@, "Task "@ + t@ + " not found"@))
        } else if new_date.day() < today {
            Some(("end_date"@, "End date cannot be in the past"@))
        } else {
            None
        },
        ChangeType::DependencyAdded(d) => if dependency_error(d@) is Some {
            dependency_error(d@)
        } else if !g.has_node(d@.predecessor_id) {
            Some(("predecessor_id"@, "Predecessor task not found"@))
        } else if !g.has_node(d@.successor_id) {
            Some(("successor_id"@, "Successor task not found"@))
        } else {
            None
        },
        _ => None,
    }
}

/// The graph after a change, or the error met. Date, duration, priority and state
/// changes leave the graph as it is; a type or lag change applies to the dependency
/// of the task on itself, which a graph never holds; dependencies are added and
/// removed as the graph does it.
pub open spec fn applied(g: GraphModel, c: ChangeType) -> Result<GraphModel, (Seq<char>, Seq<char>)> {
    match c {
        ChangeType::DependencyTypeChanged(t, _, new_type) => Ok(
            g.with_dependency_changed(t@, t@, Some(new_type), None),
        ),
        ChangeType::DependencyLagChanged(t, _, new_lag) => Ok(g.with_dependency_changed(t@, t@, None, Some(new_lag))),
        ChangeType::DependencyAdded(d) => match g.add_dependency_error(d@) {
            Some(e) => Err(e),
            None => Ok(g.added(d@)),
        },
        ChangeType::DependencyRemoved(p, s) => Ok(g.removed(p@, s@)),
        _ => Ok(g),
    }
}

/// The change that undoes a change, or why there is none. Date, duration, type and
/// lag changes are undone by a change back to the old value; an added dependency by
/// its removal.
pub open spec fn reverse_of(c: ChangeType) -> Result<ChangeType, (Seq<char>, Seq<char>)> {
    match c {
        ChangeType::StartDateChanged(t, old_date, _) => Ok(ChangeType::StartDateChanged(t, old_date, old_date)),
        ChangeType::EndDateChanged(t, old_date, _) => Ok(ChangeType::EndDateChanged(t, old_date, old_date)),
        ChangeType::DurationChanged(t, old_d, _) => Ok(ChangeType::DurationChanged(t, old_d, old_d)),
        ChangeType::DependencyTypeChanged(t, old_t, _) => Ok(ChangeType::DependencyTypeChanged(t, old_t, old_t)),
        ChangeType::DependencyLagChanged(t, old_l, _) => Ok(ChangeType::DependencyLagChanged(t, old_l, old_l)),
        ChangeType::DependencyAdded(d) => Ok(ChangeType::DependencyRemoved(d.predecessor_id, d.successor_id)),
        ChangeType::DependencyRemoved(_, _) => Err(
            ("rollback"@, "Cannot rollback dependency removal without original dependency data"@),
        ),
        _ => Err(("rollback"@, "Cannot rollback this type of change"@)),
    }
}

/// The task from which the effect of a change spreads.
pub open spec fn change_root(c: ChangeType) -> Seq<char> {
    match c {
        ChangeType::StartDateChanged(t, _, _) => t@,
        ChangeType::EndDateChanged(t, _, _) => t@,
        ChangeType::DurationChanged(t, _, _) => t@,
        ChangeType::DependencyTypeChanged(t, _, _) => t@,
        ChangeType::DependencyLagChanged(t, _, _) => t@,
        ChangeType::DependencyAdded(d) => d.predecessor_id@,
        ChangeType::DependencyRemoved(p, _) => p@,
        ChangeType::PriorityChanged(t, _) => t@,
        ChangeType::StatusChanged(t, _) => t@,
    }
}

/// Whether a list holds exactly the tasks that a change at `root` affects: `root`
/// itself and every task that a chain of dependencies leads to from it, each once.
pub open spec fn affected_by(g: GraphModel, root: Seq<char>, ids: Seq<Seq<char>>) -> bool {
    &&& ids.contains(root)
    &&& forall|x: Seq<char>| x != root ==> (ids.contains(x) <==> g.has_node(x) && g.reaches(root, x))
    &&& forall|p: int, q: int| 0 <= p < ids.len() && 0 <= q < ids.len() && p != q ==> #[trigger] ids[p] != #[trigger] ids[q]
}

/// The first conflict among the first `k` recalculated results, in order: unmet
/// dependencies, or a start after the end.
pub open spec fn result_conflict(rs: Seq<CalculationResult>, k: int) -> Option<(Seq<char>, Seq<char>)>
    decreases k,
{
    if k <= 0 {
        None
    } else {
        match result_conflict(rs, k - 1) {
            Some(e) => Some(e),
            None => {
                let r = rs[k - 1];
                if !r.dependencies_satisfied {
                    Some(("dependencies"@, "Dependencies not satisfied for task "@ + r.task_id@))
                } else {
                    match (r.calculated_start_date, r.calculated_end_date) {
                        (Some(s), Some(e)) => if s.day() > e.day() {
                            Some(("date_range"@, "Invalid date range for task "@ + r.task_id@ + ": "@
                                + crate::dates::iso_text(s.day() as i32) + " > "@ + crate::dates::iso_text(e.day() as i32)))
                        } else {
                            None
                        },
                        _ => None,
                    }
                }
            },
        }
    }
}

/// The graph with the dates of a recalculated result, where the task exists; a
/// date that was not calculated is kept.
pub open spec fn with_result(g: GraphModel, r: CalculationResult) -> GraphModel {
    if g.has_node(r.task_id@) {
        let n = g.nodes[g.index_of(r.task_id@)];
        g.with_dates(
            r.task_id@,
            match r.calculated_start_date {
                Some(d) => Some(d),
                None => n.start_date,
            },
            match r.calculated_end_date {
                Some(d) => Some(d),
                None => n.end_date,
            },
        )
    } else {
        g
    }
}

/// The graph with the dates of the first `k` results, one after the other.
pub open spec fn with_results(g: GraphModel, rs: Seq<CalculationResult>, k: int) -> GraphModel
    decreases k,
{
    if k <= 0 {
        g
    } else {
        with_result(with_results(g, rs, k - 1), rs[k - 1])
    }
}

/// The record views of a list of records.
pub open spec fn result_views(s: Seq<PropagationResult>) -> Seq<ResultView> {
    s.map_values(|r: PropagationResult| r@)
}

/// The pending changes after a change is filed under an identifier: it replaces the
/// change filed under the same identifier, or joins the end of the list.
pub open spec fn pending_after(p: Seq<(Seq<char>, ChangeType)>, id: Seq<char>, c: ChangeType) -> Seq<(Seq<char>, ChangeType)>
    decreases p.len(),
{
    if p.len() == 0 {
        seq![(id, c)]
    } else if p[0].0 == id {
        p.update(0, (id, c))
    } else {
        seq![p[0]] + pending_after(p.skip(1), id, c)
    }
}

/// The pending changes after the given changes are filed one after the other on an
/// empty list.
pub open spec fn refiled(p: Seq<(Seq<char>, ChangeType)>) -> Seq<(Seq<char>, ChangeType)>
    decreases p.len(),
{
    if p.len() == 0 {
        Seq::empty()
    } else {
        pending_after(refiled(p.drop_last()), p.last().0, p.last().1)
    }
}

/// Whether some recalculated row has its start after its end.
pub open spec fn rows_conflict(rows: Seq<DateRow>) -> bool {
    exists|i: int| #![trigger rows[i]]
        0 <= i < rows.len() && rows[i].start is Some && rows[i].end is Some
            && rows[i].start->Some_0 > rows[i].end->Some_0
}

/// Whether recalculating the dates of a graph in the given order of its tasks
/// succeeds and, when `check` is on, gives no task that starts after it ends.
pub open spec fn dates_settle(g: GraphModel, s: CalculationConfig, order: Seq<Seq<char>>, check: bool) -> bool {
    &&& is_topological_order(g, order)
    &&& run_dates(g, s, order, order.len() as int) is Ok
    &&& check ==> !rows_conflict(run_dates(g, s, order, order.len() as int)->Ok_0)
}

/// Whether recalculating fails for the order that the calculation settled on: no
/// order of the tasks respects the dependencies, or in that order the calculation
/// fails or, when `check` is on, gives a task that starts after it ends.
pub open spec fn dates_fail(g: GraphModel, s: CalculationConfig, order: Seq<Seq<char>>, check: bool) -> bool {
    ||| forall|ids: Seq<Seq<char>>| !is_topological_order(g, ids)
    ||| is_topological_order(g, order) && !dates_settle(g, s, order, check)
}

/// The graph with the dates of the recalculated rows set: it is the graph with the
/// dates of some results whose rows these are.
pub open spec fn dates_set(g: GraphModel, rows: Seq<DateRow>, after: GraphModel) -> bool {
    exists|rs: Seq<CalculationResult>| #![auto]
        results_wf(rs) && rows_of(rs) == rows && after == with_results(g, rs, rs.len() as int)
}

/// The change that a rollback by `id` undoes once the record of the change `c` filed
/// under `id` joins the end of the history `h`: that of the first record under `id`.
pub open spec fn undone_change(h: Seq<ResultView>, id: Seq<char>, c: ChangeType) -> ChangeType {
    match first_record(h, id) {
        Some(i) => h[i].change_type,
        None => c,
    }
}

/// The graph once the undoing change of that rollback applies, if it can be undone
/// and the undoing change applies.
pub open spec fn rolled_back(h: Seq<ResultView>, id: Seq<char>, c: ChangeType, g: GraphModel) -> Option<GraphModel> {
    match reverse_of(undone_change(h, id, c)) {
        Err(_) => None,
        Ok(rc) => match applied(g, rc) {
            Err(_) => None,
            Ok(g2) => Some(g2),
        },
    }
}

/// Whether that rollback fails: the change cannot be undone, the undoing change does
/// not apply, or recalculating the dates of the reverted graph fails for the order
/// that the calculation settled on.
pub open spec fn rollback_fails(
    h: Seq<ResultView>,
    id: Seq<char>,
    c: ChangeType,
    g: GraphModel,
    s: CalculationConfig,
    order: Seq<Seq<char>>,
) -> bool {
    match rolled_back(h, id, c, g) {
        None => true,
        Some(g2) => dates_fail(g2, s, order, false),
    }
}

/// The first record of a change lies in the history and has the change's identifier.
proof fn lemma_first_record_in(h: Seq<ResultView>, id: Seq<char>)
    ensures
        first_record(h, id) matches Some(i) ==> 0 <= i < h.len() && h[i].change_id == id,
    decreases h.len(),
{
    if h.len() > 0 {
        lemma_first_record_in(h.skip(1), id);
    }
}

/// A record joining the end of the history is found first only when no earlier
/// record has its identifier.
proof fn lemma_first_record_push(h: Seq<ResultView>, x: ResultView, id: Seq<char>)
    requires
        x.change_id == id,
    ensures
        first_record(h.push(x), id) == match first_record(h, id) {
            Some(i) => Some(i),
            None => Some(h.len() as int),
        },
    decreases h.len(),
{
    if h.len() > 0 {
        assert(h.push(x).skip(1) =~= h.skip(1).push(x));
        lemma_first_record_push(h.skip(1), x, id);
    }
}

/// Law: rolling back a registered dependency addition removes the dependency. Where
/// the record of the addition of `d` under `id` joined a history with no earlier
/// record under `id`, a rollback by `id` undoes that addition: on any well-formed
/// graph its undoing change applies and leaves no dependency from the predecessor of
/// `d` to its successor.
pub proof fn lemma_rollback_removes_added_dependency(h0: Seq<ResultView>, rec: ResultView, d: AdvancedDependency, g: GraphModel)
    requires
        first_record(h0, rec.change_id) is None,
        rec.change_type == ChangeType::DependencyAdded(d),
        g.wf(),
    ensures
        first_record(h0.push(rec), rec.change_id) == Some(h0.len() as int),
        rolled_back(h0.push(rec), rec.change_id, rec.change_type, g) == Some(g.removed(d.predecessor_id@, d.successor_id@)),
        !g.removed(d.predecessor_id@, d.successor_id@).edge(d.predecessor_id@, d.successor_id@),
{
    lemma_first_record_push(h0, rec, rec.change_id);
    crate::project_management::advanced_dependencies::lemma_removed_has_no_dependency(
        g,
        d.predecessor_id@,
        d.successor_id@,
    );
}

/// The first conflict among results whose dependencies are all satisfied is one of
/// a start after an end.
proof fn lemma_result_conflict_rows(rs: Seq<CalculationResult>, k: int)
    requires
        0 <= k <= rs.len(),
        forall|j: int| 0 <= j < rs.len() ==> (#[trigger] rs[j]).dependencies_satisfied,
    ensures
        (result_conflict(rs, k) is Some) == rows_conflict(rows_of(rs).take(k)),
    decreases k,
{
    let rows = rows_of(rs);
    if k > 0 {
        lemma_result_conflict_rows(rs, k - 1);
        let pre = rows.take(k - 1);
        let cur = rows.take(k);
        assert(cur =~= pre.push(rows[k - 1]));
        if rows_conflict(pre) {
            let i = choose|i: int| #![trigger pre[i]] 0 <= i < pre.len() && pre[i].start is Some && pre[i].end is Some
                && pre[i].start->Some_0 > pre[i].end->Some_0;
            assert(cur[i] == pre[i]);
        }
        if rows_conflict(cur) {
            let i = choose|i: int| #![trigger cur[i]] 0 <= i < cur.len() && cur[i].start is Some && cur[i].end is Some
                && cur[i].start->Some_0 > cur[i].end->Some_0;
            if i < k - 1 {
                assert(pre[i] == cur[i]);
            }
        }
        let r = rs[k - 1];
        assert(rows[k - 1] == crate::project_management::dependency_calculation_engine::row_of(r));
        assert(cur[k - 1] == rows[k - 1]);
    } else {
        assert(rows.take(0).len() == 0);
    }
}

/// The position of the first record of a change.
pub open spec fn first_record(h: Seq<ResultView>, id: Seq<char>) -> Option<int>
    decreases h.len(),
{
    if h.len() == 0 {
        None
    } else if h[0].change_id == id {
        Some(0)
    } else {
        match first_record(h.skip(1), id) {
            Some(i) => Some(i + 1),
            None => None,
        }
    }
}

/// Dates set from recalculated results keep the shape and the invariant of a graph.
proof fn lemma_with_results_shape(g: GraphModel, rs: Seq<CalculationResult>, k: int)
    requires
        g.wf(),
        g.acyclic(),
        0 <= k <= rs.len(),
    ensures
        same_shape(g, with_results(g, rs, k)),
        with_results(g, rs, k).wf(),
        with_results(g, rs, k).acyclic(),
    decreases k,
{
    if k > 0 {
        lemma_with_results_shape(g, rs, k - 1);
        let g1 = with_results(g, rs, k - 1);
        let g2 = with_results(g, rs, k);
        assert(same_shape(g1, g2));
        crate::project_management::advanced_dependencies::lemma_same_shape(g1, g2);
        assert forall|i: int| 0 <= i < g.nodes.len() implies #[trigger] g.nodes[i].id == g2.nodes[i].id by {
            assert(g.nodes[i].id == g1.nodes[i].id);
        }
        assert(same_shape(g, g2));
    }
}

/// Propagates changes to tasks through the dependency graph, and keeps their records.
#[derive(Debug)]
pub struct ChangePropagationSystem {
    config: PropagationConfig,
    calculation_engine: DependencyCalculationEngine,
    change_history: Vec<PropagationResult>,
    pending_changes: Vec<(String, ChangeType)>,
    rollback_stack: Vec<PropagationResult>,
}

impl ChangePropagationSystem {
    /// The invariant of the system: that of its calculation engine.
    pub closed spec fn wf(&self) -> bool {
        self.calculation_engine.wf()
    }

    /// The settings in force.
    pub closed spec fn settings(&self) -> PropagationConfig {
        self.config
    }

    /// The records of the registered changes, oldest first.
    pub closed spec fn history(&self) -> Seq<ResultView> {
        result_views(self.change_history@)
    }

    /// The changes waiting to be propagated, with their identifiers.
    pub closed spec fn pending(&self) -> Seq<(Seq<char>, ChangeType)> {
        self.pending_changes@.map_values(|p: (String, ChangeType)| (p.0@, p.1))
    }

    /// The settings of the date calculation.
    pub closed spec fn calculation_settings(&self) -> CalculationConfig {
        self.calculation_engine.settings()
    }

    /// The order of the tasks that the last date calculation settled on.
    pub closed spec fn calculation_order(&self) -> Seq<Seq<char>> {
        self.calculation_engine.order()
    }

    /// A system with the given settings, no history and nothing pending.
    pub fn new(config: PropagationConfig, calculation_config: CalculationConfig) -> (s: ChangePropagationSystem)
        requires
            calculation_config.project_start_date.wf(),
        ensures
            s.wf(),
            s.settings() == config,
            s.history() == Seq::<ResultView>::empty(),
            s.pending() == Seq::<(Seq<char>, ChangeType)>::empty(),
    {
        let s = ChangePropagationSystem {
            config,
            calculation_engine: DependencyCalculationEngine::new(calculation_config),
            change_history: Vec::new(),
            pending_changes: Vec::new(),
            rollback_stack: Vec::new(),
        };
        proof {
            assert(s.history() =~= Seq::<ResultView>::empty());
            assert(s.pending() =~= Seq::<(Seq<char>, ChangeType)>::empty());
        }
        s
    }

    /// A system with the default settings.
    pub fn with_default_config() -> (s: ChangePropagationSystem)
        ensures
            s.wf(),
            s.settings() == default_propagation_config(),
            s.history() == Seq::<ResultView>::empty(),
            s.pending() == Seq::<(Seq<char>, ChangeType)>::empty(),
    {
        Self::new(PropagationConfig::default(), CalculationConfig::default())
    }

    /// Checks a change against the graph, given today's date.
    pub fn validate_change_at(&self, change_type: &ChangeType, graph: &AdvancedDependencyGraph, today: Date) -> (r: Result<(), DomainError>)
        requires
            graph.wf(),
        ensures
            match change_problem(graph@, *change_type, today.day()) {
                Some((f, m)) => r matches Err(e) && e.is_validation(f, m),
                None => r is Ok,
            },
    {
        match change_type {
            ChangeType::StartDateChanged(task_id, new_date, _) => {
                if !graph.contains_task(task_id.as_str()) {
                    return Err(DomainError::ValidationError {
                        field: String::from_str("task_id"),
                        message: String::from_str("Task ").concat(task_id.as_str()).concat(" not found"),
                    });
                }
                if new_date.before(&today) {
                    return Err(DomainError::validation("start_date", "Start date cannot be in the past"));
                }
            },
            ChangeType::EndDateChanged(task_id, new_date, _) => {
                if !graph.contains_task(task_id.as_str()) {
                    return Err(DomainError::ValidationError {
                        field: String::from_str("task_id"),
                        message: String::from_str("Task ").concat(task_id.as_str()).concat(" not found"),
                    });
                }
                if new_date.before(&today) {
                    return Err(DomainError::validation("end_date", "End date cannot be in the past"));
                }
            },
            ChangeType::DependencyAdded(dep) => {
                match dep.validate() {
                    Err(e) => {
                        return Err(e);
                    },
                    Ok(()) => {},
                }
                if !graph.contains_task(dep.predecessor_id.as_str()) {
                    return Err(DomainError::validation("predecessor_id", "Predecessor task not found"));
                }
                if !graph.contains_task(dep.successor_id.as_str()) {
                    return Err(DomainError::validation("successor_id", "Successor task not found"));
                }
            },
            _ => {},
        }
        Ok(())
    }

    /// Checks a change against the graph and today's date. Whatever the clock says,
    /// the outcome is the one `change_problem` gives for some date.
    pub fn validate_change(&self, change_type: &ChangeType, graph: &AdvancedDependencyGraph) -> (r: Result<(), DomainError>)
        requires
            graph.wf(),
        ensures
            exists|today: int| in_range(today) && match change_problem(graph@, *change_type, today) {
                Some((f, m)) => r matches Err(e) && e.is_validation(f, m),
                None => r is Ok,
            },
    {
        let today = Date::today();
        proof {
            today.lemma_in_range();
        }
        self.validate_change_at(change_type, graph, today)
    }

    /// Applies a change to the graph.
    fn apply_change_to_graph(&self, change_type: &ChangeType, graph: &mut AdvancedDependencyGraph) -> (r: Result<(), DomainError>)
        requires
            old(graph).wf(),
        ensures
            final(graph).wf(),
            match applied(old(graph)@, *change_type) {
                Ok(g) => r is Ok && final(graph)@ == g,
                Err((f, m)) => r matches Err(e) && e.is_validation(f, m) && final(graph)@ == old(graph)@,
            },
    {
        match change_type {
            ChangeType::DependencyTypeChanged(task_id, _, new_type) => {
                graph.change_dependency(task_id.as_str(), task_id.as_str(), Some(*new_type), None);
                Ok(())
            },
            ChangeType::DependencyLagChanged(task_id, _, new_lag) => {
                graph.change_dependency(task_id.as_str(), task_id.as_str(), None, Some(*new_lag));
                Ok(())
            },
            ChangeType::DependencyAdded(dependency) => graph.add_dependency(dependency.clone()),
            ChangeType::DependencyRemoved(predecessor, successor) => graph.remove_dependency(
                predecessor.as_str(),
                successor.as_str(),
            ),
            _ => Ok(()),
        }
    }

    /// The tasks that a change affects.
    pub fn find_affected_tasks(&self, change_type: &ChangeType, graph: &AdvancedDependencyGraph) -> (r: Vec<String>)
        requires
            graph.wf(),
        ensures
            affected_by(graph@, change_root(*change_type), views(r@)),
    {
        let root: &str = match change_type {
            ChangeType::StartDateChanged(t, _, _) => t.as_str(),
            ChangeType::EndDateChanged(t, _, _) => t.as_str(),
            ChangeType::DurationChanged(t, _, _) => t.as_str(),
            ChangeType::DependencyTypeChanged(t, _, _) => t.as_str(),
            ChangeType::DependencyLagChanged(t, _, _) => t.as_str(),
            ChangeType::DependencyAdded(d) => d.predecessor_id.as_str(),
            ChangeType::DependencyRemoved(p, _) => p.as_str(),
            ChangeType::PriorityChanged(t, _) => t.as_str(),
            ChangeType::StatusChanged(t, _) => t.as_str(),
        };
        let r = self.calculation_engine.find_affected_tasks(root, graph);
        proof {
            let ids = views(r@);
            assert forall|p: int, q: int| 0 <= p < ids.len() && 0 <= q < ids.len() && p != q implies #[trigger] ids[p] != #[trigger] ids[q] by {
                assert(ids[p] == r@[p]@ && ids[q] == r@[q]@);
            }
        }
        r
    }

    /// Checks the recalculated results: every task's dependencies are satisfied and no
    /// task starts after it ends.
    fn validate_no_conflicts(&self, results: &Vec<CalculationResult>, graph: &AdvancedDependencyGraph) -> (r: Result<(), DomainError>)
        requires
            results_wf(results@),
        ensures
            match result_conflict(results@, results@.len() as int) {
                Some((f, m)) => r matches Err(e) && e.is_validation(f, m),
                None => r is Ok,
            },
    {
        let mut i: usize = 0;
        while i < results.len()
            invariant
                0 <= i <= results.len(),
                results_wf(results@),
                result_conflict(results@, i as int) is None,
            decreases results.len() - i,
        {
            let res = &results[i];
            assert(results@[i as int] == *res);
            if !res.dependencies_satisfied {
                proof {
                    lemma_conflict_sticks(results@, i + 1, results@.len() as int);
                }
                return Err(DomainError::ValidationError {
                    field: String::from_str("dependencies"),
                    message: String::from_str("Dependencies not satisfied for task ").concat(res.task_id.as_str()),
                });
            }
            match (res.calculated_start_date, res.calculated_end_date) {
                (Some(start), Some(end)) => {
                    if end.before(&start) {
                        proof {
                            lemma_conflict_sticks(results@, i + 1, results@.len() as int);
                        }
                        return Err(DomainError::ValidationError {
                            field: String::from_str("date_range"),
                            message: String::from_str("Invalid date range for task ").concat(res.task_id.as_str())
                                .concat(": ")
                                .concat(start.to_iso_string().as_str())
                                .concat(" > ")
                                .concat(end.to_iso_string().as_str()),
                        });
                    }
                },
                _ => {},
            }
            i = i + 1;
        }
        Ok(())
    }

    /// The change that undoes a change, or why there is none.
    fn create_reverse_change(&self, change_type: &ChangeType) -> (r: Result<ChangeType, DomainError>)
        ensures
            match reverse_of(*change_type) {
                Ok(c) => r matches Ok(x) && x == c,
                Err((f, m)) => r matches Err(e) && e.is_validation(f, m),
            },
    {
        match change_type {
            ChangeType::StartDateChanged(task_id, old_date, _) => Ok(
                ChangeType::StartDateChanged(task_id.clone(), *old_date, *old_date),
            ),
            ChangeType::EndDateChanged(task_id, old_date, _) => Ok(
                ChangeType::EndDateChanged(task_id.clone(), *old_date, *old_date),
            ),
            ChangeType::DurationChanged(task_id, old_duration, _) => Ok(
                ChangeType::DurationChanged(task_id.clone(), *old_duration, *old_duration),
            ),
            ChangeType::DependencyTypeChanged(task_id, old_type, _) => Ok(
                ChangeType::DependencyTypeChanged(task_id.clone(), *old_type, *old_type),
            ),
            ChangeType::DependencyLagChanged(task_id, old_lag, _) => Ok(
                ChangeType::DependencyLagChanged(task_id.clone(), *old_lag, *old_lag),
            ),
            ChangeType::DependencyAdded(dep) => Ok(
                ChangeType::DependencyRemoved(dep.predecessor_id.clone(), dep.successor_id.clone()),
            ),
            ChangeType::DependencyRemoved(_, _) => Err(
                DomainError::validation(
                    "rollback",
                    "Cannot rollback dependency removal without original dependency data",
                ),
            ),
            _ => Err(DomainError::validation("rollback", "Cannot rollback this type of change")),
        }
    }
}

/// Once a conflict is found among the first results, it stays the first.
proof fn lemma_conflict_sticks(rs: Seq<CalculationResult>, k: int, n: int)
    requires
        0 <= k <= n,
        result_conflict(rs, k) is Some,
    ensures
        result_conflict(rs, n) == result_conflict(rs, k),
    decreases n - k,
{
    if n > k {
        lemma_conflict_sticks(rs, k, n - 1);
    }
}

/// Sets the dates of the recalculated results in the graph, one result after the
/// other; a date that was not calculated is kept.
fn set_result_dates(graph: &mut AdvancedDependencyGraph, results: &Vec<CalculationResult>)
    requires
        old(graph).wf(),
        results_wf(results@),
    ensures
        final(graph).wf(),
        final(graph)@ == with_results(old(graph)@, results@, results@.len() as int),
{
    let ghost g0 = graph@;
    let mut i: usize = 0;
    while i < results.len()
        invariant
            0 <= i <= results.len(),
            results_wf(results@),
            graph.wf(),
            graph@ == with_results(g0, results@, i as int),
        decreases results.len() - i,
    {
        let res = &results[i];
        assert(results@[i as int] == *res);
        let (start, end) = match graph.get_node(res.task_id.as_str()) {
            Some(node) => {
                proof {
                    graph.lemma_wf();
                }
                (
                    match res.calculated_start_date {
                        Some(d) => Some(d),
                        None => node.start_date,
                    },
                    match res.calculated_end_date {
                        Some(d) => Some(d),
                        None => node.end_date,
                    },
                )
            },
            None => (None, None),
        };
        graph.set_task_dates(res.task_id.as_str(), start, end);
        i = i + 1;
    }
}

/// Filing a change under an identifier replaces the first change filed under it.
proof fn lemma_pending_at(p: Seq<(Seq<char>, ChangeType)>, id: Seq<char>, c: ChangeType, i: int)
    requires
        0 <= i < p.len(),
        p[i].0 == id,
        forall|j: int| 0 <= j < i ==> p[j].0 != id,
    ensures
        pending_after(p, id, c) == p.update(i, (id, c)),
    decreases i,
{
    if i > 0 {
        assert forall|j: int| 0 <= j < i - 1 implies p.skip(1)[j].0 != id by {
            assert(p.skip(1)[j] == p[j + 1]);
        }
        lemma_pending_at(p.skip(1), id, c, i - 1);
        assert(seq![p[0]] + p.skip(1).update(i - 1, (id, c)) =~= p.update(i, (id, c)));
    }
}

/// Filing a change under a new identifier adds it at the end.
proof fn lemma_pending_new(p: Seq<(Seq<char>, ChangeType)>, id: Seq<char>, c: ChangeType)
    requires
        forall|j: int| 0 <= j < p.len() ==> p[j].0 != id,
    ensures
        pending_after(p, id, c) == p.push((id, c)),
    decreases p.len(),
{
    if p.len() > 0 {
        assert forall|j: int| 0 <= j < p.len() - 1 implies p.skip(1)[j].0 != id by {
            assert(p.skip(1)[j] == p[j + 1]);
        }
        lemma_pending_new(p.skip(1), id, c);
        assert(seq![p[0]] + p.skip(1).push((id, c)) =~= p.push((id, c)));
    }
}

proof fn lemma_first_record_at(h: Seq<ResultView>, id: Seq<char>, i: int)
    requires
        0 <= i < h.len(),
        h[i].change_id == id,
        forall|j: int| 0 <= j < i ==> h[j].change_id != id,
    ensures
        first_record(h, id) == Some(i),
    decreases i,
{
    if i > 0 {
        assert forall|j: int| 0 <= j < i - 1 implies h.skip(1)[j].change_id != id by {
            assert(h.skip(1)[j] == h[j + 1]);
        }
        lemma_first_record_at(h.skip(1), id, i - 1);
    }
}

proof fn lemma_first_record_none(h: Seq<ResultView>, id: Seq<char>)
    requires
        forall|j: int| 0 <= j < h.len() ==> h[j].change_id != id,
    ensures
        first_record(h, id) is None,
    decreases h.len(),
{
    if h.len() > 0 {
        assert forall|j: int| 0 <= j < h.len() - 1 implies h.skip(1)[j].change_id != id by {
            assert(h.skip(1)[j] == h[j + 1]);
        }
        lemma_first_record_none(h.skip(1), id);
    }
}

impl ChangePropagationSystem {
    /// Files a change as pending under its identifier.
    fn insert_pending(&mut self, change_id: String, change_type: ChangeType)
        ensures
            final(self).pending() == pending_after(old(self).pending(), change_id@, change_type),
            final(self).history() == old(self).history(),
            final(self).settings() == old(self).settings(),
            final(self).calculation_engine == old(self).calculation_engine,
    {
        let ghost p0 = self.pending();
        let mut i: usize = 0;
        while i < self.pending_changes.len()
            invariant
                0 <= i <= self.pending_changes.len(),
                p0 == self.pending(),
                p0 == old(self).pending(),
                self.pending_changes@.len() == p0.len(),
                forall|j: int| 0 <= j < i ==> p0[j].0 != change_id@,
                self.history() == old(self).history(),
                self.settings() == old(self).settings(),
                self.calculation_engine == old(self).calculation_engine,
            decreases self.pending_changes.len() - i,
        {
            assert(p0[i as int].0 == self.pending_changes@[i as int].0@);
            if str_eq(self.pending_changes[i].0.as_str(), change_id.as_str()) {
                proof {
                    lemma_pending_at(p0, change_id@, change_type, i as int);
                }
                self.pending_changes.set(i, (change_id, change_type));
                proof {
                    assert(self.pending() =~= p0.update(i as int, (change_id@, change_type)));
                }
                return;
            }
            i = i + 1;
        }
        proof {
            lemma_pending_new(p0, change_id@, change_type);
        }
        self.pending_changes.push((change_id, change_type));
        proof {
            assert(self.pending() =~= p0.push((change_id@, change_type)));
        }
    }

    /// Recalculates the dates of every task, checks them when the settings ask for it,
    /// and sets them in the graph.
    fn propagate_change(&mut self, result: &mut PropagationResult, graph: &mut AdvancedDependencyGraph) -> (r: Result<(), DomainError>)
        requires
            old(self).wf(),
            old(graph).wf(),
        ensures
            final(self).wf(),
            final(self).settings() == old(self).settings(),
            final(self).history() == old(self).history(),
            final(self).pending() == old(self).pending(),
            final(result)@ == (ResultView { status: PropagationStatus::InProgress, ..old(result)@ }),
            final(graph).wf(),
            final(self).calculation_settings() == old(self).calculation_settings(),
            r is Ok <==> dates_settle(old(graph)@, old(self).calculation_settings(), final(self).calculation_order(),
                old(self).settings().conflict_validation),
            r is Err ==> final(graph)@ == old(graph)@ && dates_fail(old(graph)@, old(self).calculation_settings(),
                final(self).calculation_order(), old(self).settings().conflict_validation),
            r is Ok ==> same_shape(old(graph)@, final(graph)@) && dates_set(
                old(graph)@,
                run_dates(old(graph)@, old(self).calculation_settings(), final(self).calculation_order(),
                    final(self).calculation_order().len() as int)->Ok_0,
                final(graph)@,
            ),
    {
        result.status = PropagationStatus::InProgress;
        let calculation_results = match self.calculation_engine.calculate_project_dates(graph) {
            Ok(v) => v,
            Err(e) => {
                return Err(e);
            },
        };
        proof {
            lemma_result_conflict_rows(calculation_results@, calculation_results@.len() as int);
            assert(rows_of(calculation_results@).take(calculation_results@.len() as int) =~= rows_of(calculation_results@));
        }
        if self.config.conflict_validation {
            match self.validate_no_conflicts(&calculation_results, graph) {
                Err(e) => {
                    return Err(e);
                },
                Ok(()) => {},
            }
        }
        let ghost g0 = graph@;
        proof {
            graph.lemma_wf();
            lemma_with_results_shape(g0, calculation_results@, calculation_results@.len() as int);
        }
        set_result_dates(graph, &calculation_results);
        Ok(())
    }

    /// The position of the first record of a change.
    fn find_record(&self, change_id: &str) -> (r: Option<usize>)
        ensures
            match r {
                Some(i) => i < self.change_history@.len() && first_record(self.history(), change_id@) == Some(i as int),
                None => first_record(self.history(), change_id@) is None,
            },
    {
        let ghost h0 = self.history();
        let mut i: usize = 0;
        while i < self.change_history.len()
            invariant
                0 <= i <= self.change_history.len(),
                h0 == self.history(),
                self.change_history@.len() == h0.len(),
                forall|j: int| 0 <= j < i ==> h0[j].change_id != change_id@,
            decreases self.change_history.len() - i,
        {
            assert(h0[i as int].change_id == self.change_history@[i as int].change_id@);
            if str_eq(self.change_history[i].change_id.as_str(), change_id) {
                proof {
                    lemma_first_record_at(h0, change_id@, i as int);
                }
                return Some(i);
            }
            i = i + 1;
        }
        proof {
            lemma_first_record_none(h0, change_id@);
        }
        None
    }

    /// Reverts a registered change: applies the change that undoes the first record
    /// with this identifier, recalculates the dates, and marks the record reverted.
    /// It succeeds exactly when there is such a record, its change can be undone, the
    /// undoing change applies, and recalculating the dates of the reverted graph
    /// succeeds.
    pub fn rollback_change(&mut self, change_id: &str, graph: &mut AdvancedDependencyGraph) -> (r: Result<(), DomainError>)
        requires
            old(self).wf(),
            old(graph).wf(),
        ensures
            final(self).wf(),
            final(graph).wf(),
            final(self).settings() == old(self).settings(),
            final(self).calculation_settings() == old(self).calculation_settings(),
            final(self).pending() == old(self).pending(),
            final(self).history().len() == old(self).history().len(),
            match first_record(old(self).history(), change_id@) {
                None => (r matches Err(e) && e.is_validation("change_id"@, "Change "@ + change_id@ + " not found"@))
                    && final(graph)@ == old(graph)@ && final(self).history() == old(self).history(),
                Some(i) => match reverse_of(old(self).history()[i].change_type) {
                    Err((f, m)) => (r matches Err(e) && e.is_validation(f, m)) && final(graph)@ == old(graph)@
                        && final(self).history() == old(self).history(),
                    Ok(rc) => match applied(old(graph)@, rc) {
                        Err((f, m)) => (r matches Err(e) && e.is_validation(f, m)) && final(graph)@ == old(graph)@
                            && final(self).history() == old(self).history(),
                        Ok(g) => final(graph)@ == g
                            && (r is Ok <==> dates_settle(g, old(self).calculation_settings(), final(self).calculation_order(), false))
                            && (r is Err ==> dates_fail(g, old(self).calculation_settings(), final(self).calculation_order(), false))
                            && (r is Ok ==> final(self).history() == old(self).history().update(
                            i,
                            ResultView { status: PropagationStatus::Reverted, ..old(self).history()[i] },
                        )) && (r is Err ==> final(self).history() == old(self).history()),
                    },
                },
            },
    {
        let ghost h0 = self.history();
        let idx = match self.find_record(change_id) {
            Some(k) => k,
            None => {
                return Err(DomainError::ValidationError {
                    field: String::from_str("change_id"),
                    message: String::from_str("Change ").concat(change_id).concat(" not found"),
                });
            },
        };
        assert(h0[idx as int].change_type == self.change_history@[idx as int].change_type);
        let reverse_change = match self.create_reverse_change(&self.change_history[idx].change_type) {
            Ok(c) => c,
            Err(e) => {
                return Err(e);
            },
        };
        match self.apply_change_to_graph(&reverse_change, graph) {
            Err(e) => {
                return Err(e);
            },
            Ok(()) => {},
        }
        match self.calculation_engine.calculate_project_dates(graph) {
            Err(e) => {
                return Err(e);
            },
            Ok(_) => {},
        }
        let ghost before = self.change_history@;
        self.change_history[idx].status = PropagationStatus::Reverted;
        proof {
            assert(self.history() =~= h0.update(
                idx as int,
                ResultView { status: PropagationStatus::Reverted, ..h0[idx as int] },
            ));
        }
        Ok(())
    }
}

impl ChangePropagationSystem {
    /// Registers a change: checks it, applies it to the graph, and records the tasks it
    /// affects. With automatic propagation the dates are then recalculated and set, and
    /// the record says `Propagated`; when that fails the record says `Failed` with the
    /// error, and with automatic rollback on it joins the history, the first record of
    /// the change is rolled back, and the record then says `Reverted`; when the
    /// rollback fails too, the error of the rollback is returned. Without automatic
    /// propagation the change waits among the pending changes. The record joins the
    /// history. The check of dates takes `today` as the current day, and a propagated
    /// record is stamped with the instant `now`.
    pub fn register_change_at(
        &mut self,
        change_id: String,
        change_type: ChangeType,
        graph: &mut AdvancedDependencyGraph,
        today: Date,
        now: i64,
    ) -> (r: Result<PropagationResult, DomainError>)
        requires
            old(self).wf(),
            old(graph).wf(),
        ensures
            final(self).wf(),
            final(graph).wf(),
            final(self).settings() == old(self).settings(),
            change_problem(old(graph)@, change_type, today.day()) matches Some((f, m)) ==> {
                &&& r matches Err(e) && e.is_validation(f, m)
                &&& final(graph)@ == old(graph)@
                &&& final(self).history() == old(self).history()
                &&& final(self).pending() == old(self).pending()
            },
            change_problem(old(graph)@, change_type, today.day()) is None ==> match r {
                Ok(res) => {
                    &&& res@.change_id == change_id@
                    &&& res@.change_type == change_type
                    &&& applied(old(graph)@, change_type) is Ok
                    &&& affected_by(applied(old(graph)@, change_type)->Ok_0, change_root(change_type), res@.affected_tasks)
                    &&& final(self).history().len() == old(self).history().len() + 1
                    &&& final(self).history().last() == res@
                    &&& !old(self).settings().auto_propagate ==> {
                        &&& res@.status == PropagationStatus::Pending
                        &&& final(graph)@ == applied(old(graph)@, change_type)->Ok_0
                        &&& final(self).pending() == pending_after(old(self).pending(), change_id@, change_type)
                        &&& final(self).history() == old(self).history().push(res@)
                    }
                    &&& old(self).settings().auto_propagate ==> {
                        let g1 = applied(old(graph)@, change_type)->Ok_0;
                        let es = old(self).calculation_settings();
                        let cv = old(self).settings().conflict_validation;
                        &&& res@.status == PropagationStatus::Propagated || res@.status is Failed
                            || res@.status == PropagationStatus::Reverted
                        &&& final(self).pending() == old(self).pending()
                        &&& res@.status == PropagationStatus::Propagated ==> {
                            &&& res@.rollback_available
                            &&& res@.propagated_at == Some(now)
                            &&& dates_settle(g1, es, final(self).calculation_order(), cv)
                            &&& dates_set(g1, run_dates(g1, es, final(self).calculation_order(),
                                final(self).calculation_order().len() as int)->Ok_0, final(graph)@)
                            &&& final(self).history() == old(self).history().push(res@)
                        }
                        &&& res@.status != PropagationStatus::Propagated ==> {
                            &&& res@.error_message is Some
                            &&& exists|order: Seq<Seq<char>>| dates_fail(g1, es, order, cv)
                        }
                        &&& (res@.status is Failed) == (!old(self).settings().auto_rollback
                            && dates_fail(g1, es, final(self).calculation_order(), cv))
                        &&& res@.status is Failed ==> final(graph)@ == g1
                            && final(self).history() == old(self).history().push(res@)
                        &&& res@.status == PropagationStatus::Reverted ==> {
                            &&& old(self).settings().auto_rollback
                            &&& rolled_back(old(self).history(), change_id@, change_type, g1) == Some(final(graph)@)
                            &&& dates_settle(final(graph)@, es, final(self).calculation_order(), false)
                        }
                    }
                },
                Err(e) => {
                    ||| applied(old(graph)@, change_type) is Err
                    ||| {
                        let g1 = applied(old(graph)@, change_type)->Ok_0;
                        let es = old(self).calculation_settings();
                        &&& old(self).settings().auto_propagate
                        &&& old(self).settings().auto_rollback
                        &&& exists|order: Seq<Seq<char>>| dates_fail(g1, es, order, old(self).settings().conflict_validation)
                        &&& rollback_fails(old(self).history(), change_id@, change_type, g1, es, final(self).calculation_order())
                        &&& final(self).history().len() == old(self).history().len() + 1
                    }
                },
            },
    {
        match self.validate_change_at(&change_type, graph, today) {
            Err(e) => {
                return Err(e);
            },
            Ok(()) => {},
        }
        let mut result = PropagationResult {
            change_id: change_id.clone(),
            change_type: change_type.clone(),
            status: PropagationStatus::Pending,
            affected_tasks: Vec::new(),
            propagated_at: None,
            error_message: None,
            rollback_available: false,
        };
        match self.apply_change_to_graph(&change_type, graph) {
            Err(e) => {
                return Err(e);
            },
            Ok(()) => {},
        }
        let ghost g1 = graph@;
        result.affected_tasks = self.find_affected_tasks(&change_type, graph);
        if self.config.auto_propagate {
            match self.propagate_change(&mut result, graph) {
                Ok(()) => {
                    result.status = PropagationStatus::Propagated;
                    result.propagated_at = Some(now);
                    result.rollback_available = true;
                },
                Err(e) => {
                    result.status = PropagationStatus::Failed(e.to_text());
                    result.error_message = Some(e.to_text());
                    let ghost o1 = self.calculation_order();
                    assert(dates_fail(g1, old(self).calculation_settings(), o1, old(self).settings().conflict_validation));
                    if self.config.auto_rollback {
                        let ghost h1 = self.history();
                        let ghost gf = graph@;
                        assert(h1 == old(self).history());
                        self.change_history.push(result.clone());
                        proof {
                            assert(self.history() =~= h1.push(result@));
                            lemma_first_record_push(h1, result@, change_id@);
                            lemma_first_record_in(h1, change_id@);
                        }
                        let ghost h2 = self.history();
                        match self.rollback_change(change_id.as_str(), graph) {
                            Err(e2) => {
                                proof {
                                    assert(gf == g1);
                                    assert(h2[h1.len() as int].change_type == change_type);
                                    assert(undone_change(h1, change_id@, change_type) == match first_record(h2, change_id@) {
                                        Some(i) => h2[i].change_type,
                                        None => change_type,
                                    });
                                    assert(rollback_fails(h1, change_id@, change_type, g1, old(self).calculation_settings(), self.calculation_order()));
                                    assert(self.history().len() == h1.len() + 1);
                                }
                                return Err(e2);
                            },
                            Ok(()) => {},
                        }
                        result.status = PropagationStatus::Reverted;
                        let last = self.change_history.len() - 1;
                        let ghost h3 = self.history();
                        self.change_history.set(last, result.clone());
                        proof {
                            assert(self.history() =~= h3.update(last as int, result@));
                            assert(h2[h1.len() as int].change_type == change_type);
                            assert(undone_change(h1, change_id@, change_type) == match first_record(h2, change_id@) {
                                Some(i) => h2[i].change_type,
                                None => change_type,
                            });
                            assert(rolled_back(h1, change_id@, change_type, g1) == Some(graph@));
                            assert(dates_settle(graph@, old(self).calculation_settings(), self.calculation_order(), false));
                            assert(result@.error_message is Some);
                            assert(self.history().len() == h1.len() + 1);
                            assert(self.history().last() == result@);
                        }
                        return Ok(result);
                    }
                },
            }
        } else {
            self.insert_pending(change_id, change_type);
        }
        let ghost h1 = self.history();
        self.change_history.push(result.clone());
        proof {
            assert(self.history() =~= h1.push(result@));
        }
        Ok(result)
    }

    /// Registers a change: checks it, applies it to the graph, and records the tasks it
    /// affects. With automatic propagation the dates are then recalculated and set, and
    /// the record says `Propagated`; when that fails the record says `Failed` with the
    /// error, and with automatic rollback on it joins the history, the first record of
    /// the change is rolled back, and the record then says `Reverted`; when the
    /// rollback fails too, the error of the rollback is returned. Without automatic
    /// propagation the change waits among the pending changes. The record joins the
    /// history. The check of dates takes the current day from the clock.
    pub fn register_change(
        &mut self,
        change_id: String,
        change_type: ChangeType,
        graph: &mut AdvancedDependencyGraph,
    ) -> (r: Result<PropagationResult, DomainError>)
        requires
            old(self).wf(),
            old(graph).wf(),
        ensures
            final(self).wf(),
            final(graph).wf(),
            final(self).settings() == old(self).settings(),
            match r {
                Ok(res) => {
                    &&& res@.change_id == change_id@
                    &&& res@.change_type == change_type
                    &&& applied(old(graph)@, change_type) is Ok
                    &&& affected_by(applied(old(graph)@, change_type)->Ok_0, change_root(change_type), res@.affected_tasks)
                    &&& final(self).history().len() == old(self).history().len() + 1
                    &&& final(self).history().last() == res@
                    &&& !old(self).settings().auto_propagate ==> {
                        &&& res@.status == PropagationStatus::Pending
                        &&& final(graph)@ == applied(old(graph)@, change_type)->Ok_0
                        &&& final(self).pending() == pending_after(old(self).pending(), change_id@, change_type)
                        &&& final(self).history() == old(self).history().push(res@)
                    }
                    &&& old(self).settings().auto_propagate ==> {
                        let g1 = applied(old(graph)@, change_type)->Ok_0;
                        let es = old(self).calculation_settings();
                        let cv = old(self).settings().conflict_validation;
                        &&& res@.status == PropagationStatus::Propagated || res@.status is Failed
                            || res@.status == PropagationStatus::Reverted
                        &&& final(self).pending() == old(self).pending()
                        &&& res@.status == PropagationStatus::Propagated ==> {
                            &&& res@.rollback_available
                            &&& dates_settle(g1, es, final(self).calculation_order(), cv)
                            &&& dates_set(g1, run_dates(g1, es, final(self).calculation_order(),
                                final(self).calculation_order().len() as int)->Ok_0, final(graph)@)
                            &&& final(self).history() == old(self).history().push(res@)
                        }
                        &&& res@.status != PropagationStatus::Propagated ==> {
                            &&& res@.error_message is Some
                            &&& exists|order: Seq<Seq<char>>| dates_fail(g1, es, order, cv)
                        }
                        &&& (res@.status is Failed) == (!old(self).settings().auto_rollback
                            && dates_fail(g1, es, final(self).calculation_order(), cv))
                        &&& res@.status is Failed ==> final(graph)@ == g1
                            && final(self).history() == old(self).history().push(res@)
                        &&& res@.status == PropagationStatus::Reverted ==> {
                            &&& old(self).settings().auto_rollback
                            &&& rolled_back(old(self).history(), change_id@, change_type, g1) == Some(final(graph)@)
                            &&& dates_settle(final(graph)@, es, final(self).calculation_order(), false)
                        }
                    }
                },
                Err(e) => {
                    ||| exists|today: int| in_range(today) && change_problem(old(graph)@, change_type, today) is Some
                    ||| applied(old(graph)@, change_type) is Err
                    ||| {
                        let g1 = applied(old(graph)@, change_type)->Ok_0;
                        let es = old(self).calculation_settings();
                        &&& old(self).settings().auto_propagate
                        &&& old(self).settings().auto_rollback
                        &&& exists|order: Seq<Seq<char>>| dates_fail(g1, es, order, old(self).settings().conflict_validation)
                        &&& rollback_fails(old(self).history(), change_id@, change_type, g1, es, final(self).calculation_order())
                        &&& final(self).history().len() == old(self).history().len() + 1
                    }
                },
            },
    {
        let today = Date::today();
        let now = now_millis();
        proof {
            today.lemma_in_range();
        }
        self.register_change_at(change_id, change_type, graph, today, now)
    }

    /// Registers every pending change, in the order they were filed, and returns their
    /// records; stops at the first change that fails. The pending list is emptied
    /// first: with automatic propagation it stays empty, without it every change is
    /// filed there again as it is registered. With nothing pending it succeeds with no
    /// record.
    pub fn process_pending_changes(&mut self, graph: &mut AdvancedDependencyGraph) -> (r: Result<Vec<PropagationResult>, DomainError>)
        requires
            old(self).wf(),
            old(graph).wf(),
        ensures
            final(self).wf(),
            final(graph).wf(),
            final(self).settings() == old(self).settings(),
            old(self).pending().len() == 0 ==> (r matches Ok(v) && v@.len() == 0),
            r is Err ==> old(self).pending().len() > 0,
            r matches Ok(v) ==> {
                &&& v@.len() == old(self).pending().len()
                &&& forall|i: int| 0 <= i < v@.len() ==> {
                    &&& (#[trigger] v@[i])@.change_id == old(self).pending()[i].0
                    &&& v@[i]@.change_type == old(self).pending()[i].1
                    &&& !old(self).settings().auto_propagate ==> v@[i]@.status == PropagationStatus::Pending
                }
                &&& final(self).history().len() == old(self).history().len() + v@.len()
                &&& !old(self).settings().auto_propagate ==> {
                    &&& final(self).history() == old(self).history() + result_views(v@)
                    &&& final(self).pending() == refiled(old(self).pending())
                }
                &&& old(self).settings().auto_propagate ==> final(self).pending().len() == 0
            },
    {
        let ghost h0 = self.history();
        let ghost p0 = self.pending();
        let mut pending: Vec<(String, ChangeType)> = Vec::new();
        std::mem::swap(&mut pending, &mut self.pending_changes);
        let mut results: Vec<PropagationResult> = Vec::new();
        let mut i: usize = 0;
        while i < pending.len()
            invariant
                0 <= i <= pending.len(),
                self.wf(),
                graph.wf(),
                self.settings() == old(self).settings(),
                p0 == pending@.map_values(|p: (String, ChangeType)| (p.0@, p.1)),
                p0.len() == pending@.len(),
                p0 == old(self).pending(),
                results@.len() == i,
                forall|j: int| 0 <= j < i ==> {
                    &&& (#[trigger] results@[j])@.change_id == p0[j].0
                    &&& results@[j]@.change_type == p0[j].1
                    &&& !old(self).settings().auto_propagate ==> results@[j]@.status == PropagationStatus::Pending
                },
                self.history().len() == h0.len() + i,
                !old(self).settings().auto_propagate ==> {
                    &&& self.history() == h0 + result_views(results@)
                    &&& self.pending() == refiled(p0.take(i as int))
                },
                old(self).settings().auto_propagate ==> self.pending().len() == 0,
            decreases pending.len() - i,
        {
            let id = pending[i].0.clone();
            let change = pending[i].1.clone();
            let ghost hb = self.history();
            let ghost rb = results@;
            match self.register_change(id, change, graph) {
                Ok(res) => {
                    results.push(res);
                    proof {
                        assert(p0.take(i as int + 1).drop_last() =~= p0.take(i as int));
                        assert(result_views(results@) =~= result_views(rb).push(res@));
                        if !old(self).settings().auto_propagate {
                            assert(self.history() =~= h0 + result_views(results@));
                        }
                    }
                },
                Err(e) => {
                    return Err(e);
                },
            }
            i = i + 1;
        }
        proof {
            assert(p0.take(pending@.len() as int) =~= p0);
        }
        Ok(results)
    }

    /// The records of the registered changes, oldest first.
    pub fn get_change_history(&self) -> (r: &[PropagationResult])
        ensures
            result_views(r@) == self.history(),
    {
        self.change_history.as_slice()
    }

    /// The changes waiting to be propagated.
    pub fn get_pending_changes(&self) -> (r: &Vec<(String, ChangeType)>)
        ensures
            r@.map_values(|p: (String, ChangeType)| (p.0@, p.1)) == self.pending(),
    {
        &self.pending_changes
    }

    /// Forgets every record.
    pub fn clear_history(&mut self)
        ensures
            final(self).wf() == old(self).wf(),
            final(self).history() == Seq::<ResultView>::empty(),
            final(self).pending() == old(self).pending(),
            final(self).settings() == old(self).settings(),
    {
        self.change_history.clear();
        self.rollback_stack.clear();
        proof {
            assert(self.history() =~= Seq::<ResultView>::empty());
        }
    }

    /// Replaces the settings.
    pub fn update_config(&mut self, config: PropagationConfig)
        ensures
            final(self).wf() == old(self).wf(),
            final(self).settings() == config,
            final(self).history() == old(self).history(),
            final(self).pending() == old(self).pending(),
    {
        self.config = config;
    }
}

} // verus!
