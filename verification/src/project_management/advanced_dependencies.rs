//! Dependencies between tasks: their kinds, their lags, and the graph that holds them.
//!
//! The graph never holds a cycle: `add_dependency` refuses any dependency that would
//! close one, so every sequence of dependencies leads from a task to other tasks.

use vstd::prelude::*;
use crate::dates::{Date, in_range};
use crate::errors::DomainError;
use crate::text::{i64_to_text, signed_decimal, str_eq, views};

verus! {

// ============================================================================
// KINDS OF DEPENDENCY
// ============================================================================

/// How the dates of a successor depend on those of its predecessor.
#[derive(Debug, Clone, Copy, PartialEq, Eq, Hash, Structural)]
pub enum DependencyType {
    /// The predecessor finishes before the successor starts.
    FinishToStart,
    /// The predecessor starts before the successor starts.
    StartToStart,
    /// The predecessor finishes before the successor finishes.
    FinishToFinish,
    /// The predecessor starts before the successor finishes.
    StartToFinish,
}

/// The readable name of a kind of dependency.
pub open spec fn dependency_type_description(t: DependencyType) -> Seq<char> {
    match t {
        DependencyType::FinishToStart => "Finish to Start"@,
        DependencyType::StartToStart => "Start to Start"@,
        DependencyType::FinishToFinish => "Finish to Finish"@,
        DependencyType::StartToFinish => "Start to Finish"@,
    }
}

/// The two-letter symbol of a kind of dependency.
pub open spec fn dependency_type_symbol(t: DependencyType) -> Seq<char> {
    match t {
        DependencyType::FinishToStart => "FS"@,
        DependencyType::StartToStart => "SS"@,
        DependencyType::FinishToFinish => "FF"@,
        DependencyType::StartToFinish => "SF"@,
    }
}

impl DependencyType {
    /// A readable description of the kind of dependency.
    pub fn description(&self) -> (s: &'static str)
        ensures
            s@ == dependency_type_description(*self),
    {
        match self {
            DependencyType::FinishToStart => "Finish to Start",
            DependencyType::StartToStart => "Start to Start",
            DependencyType::FinishToFinish => "Finish to Finish",
            DependencyType::StartToFinish => "Start to Finish",
        }
    }

    /// The symbol that represents the kind of dependency.
    pub fn symbol(&self) -> (s: &'static str)
        ensures
            s@ == dependency_type_symbol(*self),
    {
        match self {
            DependencyType::FinishToStart => "FS",
            DependencyType::StartToStart => "SS",
            DependencyType::FinishToFinish => "FF",
            DependencyType::StartToFinish => "SF",
        }
    }
}

// ============================================================================
// LAGS
// ============================================================================

/// Largest number of whole days that a `chrono::Duration` can hold
/// (`i64::MAX` milliseconds).
pub const MAX_SPAN_DAYS: i64 = 106751991167i64;

/// Whether a number of days fits in a `chrono::Duration`.
pub open spec fn span_fits(days: int) -> bool {
    -MAX_SPAN_DAYS <= days <= MAX_SPAN_DAYS
}

/// A gap between a dependency and the date it constrains, in whole days.
#[derive(Debug, Clone, Copy, PartialEq, Eq, Hash, Structural)]
pub enum LagType {
    /// A delay after the dependency.
    Positive(i64),
    /// An overlap: the constrained date comes before the dependency.
    Negative(i64),
    /// No lag.
    Zero,
}

/// The readable description of a lag.
pub open spec fn lag_description(l: LagType) -> Seq<char> {
    match l {
        LagType::Positive(d) => "+"@ + signed_decimal(d as int) + " days"@,
        LagType::Negative(d) => "-"@ + signed_decimal(d as int) + " days"@,
        LagType::Zero => "0 days"@,
    }
}

/// What applying a lag to a date yields: the shifted date, or `None` where the
/// lag cannot be applied (a negative count of days, or a date out of range).
pub open spec fn lag_applied(l: LagType, base: int) -> Option<int> {
    match l {
        LagType::Positive(d) => if d >= 0 && in_range(base + d) { Some(base + d) } else { None },
        LagType::Negative(d) => if d >= 0 && in_range(base - d) { Some(base - d) } else { None },
        LagType::Zero => Some(base),
    }
}

impl LagType {
    /// A delay of `days` days.
    pub fn positive_days(days: i64) -> (l: LagType)
        requires
            span_fits(days as int),
        ensures
            l == LagType::Positive(days),
    {
        LagType::Positive(days)
    }

    /// An overlap of `days` days.
    pub fn negative_days(days: i64) -> (l: LagType)
        requires
            span_fits(days as int),
        ensures
            l == LagType::Negative(days),
    {
        LagType::Negative(days)
    }

    /// No lag.
    pub fn zero() -> (l: LagType)
        ensures
            l == LagType::Zero,
    {
        LagType::Zero
    }

    /// Applies the lag to a date.
    pub fn apply_to_date(&self, base_date: Date) -> (r: Result<Date, DomainError>)
        requires
            base_date.wf(),
        ensures
            match lag_applied(*self, base_date.day()) {
                Some(d) => r matches Ok(x) && x.day() == d && x.wf(),
                None => r matches Err(e) && e.is_validation("lag"@, match *self {
                    LagType::Positive(_) => "Invalid positive lag duration"@,
                    _ => "Invalid negative lag duration"@,
                }),
            },
    {
        match self {
            LagType::Positive(days) => {
                let shifted = if *days >= 0 { base_date.checked_add_days(*days as u64) } else { None };
                match shifted {
                    Some(d) => Ok(d),
                    None => Err(DomainError::validation("lag", "Invalid positive lag duration")),
                }
            },
            LagType::Negative(days) => {
                let shifted = if *days >= 0 { base_date.checked_sub_days(*days as u64) } else { None };
                match shifted {
                    Some(d) => Ok(d),
                    None => Err(DomainError::validation("lag", "Invalid negative lag duration")),
                }
            },
            LagType::Zero => Ok(base_date),
        }
    }

    /// A readable description of the lag.
    pub fn description(&self) -> (s: String)
        ensures
            s@ == lag_description(*self),
    {
        match self {
            LagType::Positive(d) => String::from_str("+").concat(i64_to_text(*d).as_str()).concat(" days"),
            LagType::Negative(d) => String::from_str("-").concat(i64_to_text(*d).as_str()).concat(" days"),
            LagType::Zero => String::from_str("0 days"),
        }
    }
}


// ============================================================================
// DEPENDENCIES AND TASK NODES
// ============================================================================

/// A dependency between two tasks.
#[derive(Debug, PartialEq, Eq)]
pub struct AdvancedDependency {
    pub id: String,
    pub predecessor_id: String,
    pub successor_id: String,
    pub dependency_type: DependencyType,
    pub lag: LagType,
    /// Creation time, in milliseconds since the Unix epoch.
    pub created_at: i64,
    pub created_by: String,
    pub description: Option<String>,
}

/// The content of a dependency.
pub struct DependencyView {
    pub id: Seq<char>,
    pub predecessor_id: Seq<char>,
    pub successor_id: Seq<char>,
    pub dependency_type: DependencyType,
    pub lag: LagType,
    pub created_at: i64,
    pub created_by: Seq<char>,
    pub description: Option<Seq<char>>,
}

/// The view of an optional string.
pub open spec fn opt_view(o: Option<String>) -> Option<Seq<char>> {
    match o {
        Some(s) => Some(s@),
        None => None,
    }
}

fn clone_opt_string(o: &Option<String>) -> (r: Option<String>)
    ensures
        r == *o,
{
    match o {
        Some(s) => Some(s.clone()),
        None => None,
    }
}

impl View for AdvancedDependency {
    type V = DependencyView;

    open spec fn view(&self) -> DependencyView {
        DependencyView {
            id: self.id@,
            predecessor_id: self.predecessor_id@,
            successor_id: self.successor_id@,
            dependency_type: self.dependency_type,
            lag: self.lag,
            created_at: self.created_at,
            created_by: self.created_by@,
            description: opt_view(self.description),
        }
    }
}

impl Clone for AdvancedDependency {
    fn clone(&self) -> (r: Self)
        ensures
            r == *self,
    {
        AdvancedDependency {
            id: self.id.clone(),
            predecessor_id: self.predecessor_id.clone(),
            successor_id: self.successor_id.clone(),
            dependency_type: self.dependency_type,
            lag: self.lag,
            created_at: self.created_at,
            created_by: self.created_by.clone(),
            description: clone_opt_string(&self.description),
        }
    }
}

/// The text of the identifier that a new dependency gets at a given time.
pub open spec fn dependency_id_text(millis: i64) -> Seq<char> {
    "dep_"@ + signed_decimal(millis as int)
}

/// Which validation error, if any, a dependency fails: `(field, message)`.
pub open spec fn dependency_error(d: DependencyView) -> Option<(Seq<char>, Seq<char>)> {
    if d.predecessor_id == d.successor_id {
        Some(("dependency"@, "A task cannot depend on itself"@))
    } else if d.predecessor_id.len() == 0 || d.successor_id.len() == 0 {
        Some(("dependency"@, "Predecessor and successor IDs cannot be empty"@))
    } else {
        None
    }
}

/// The readable description of a dependency.
pub open spec fn dependency_description(d: DependencyView) -> Seq<char> {
    let base = d.predecessor_id + " "@ + dependency_type_symbol(d.dependency_type) + " "@
        + lag_description(d.lag) + " "@ + d.successor_id;
    match d.description {
        Some(desc) => base + " ("@ + desc + ")"@,
        None => base,
    }
}

impl AdvancedDependency {
    /// A new dependency, stamped with the current time.
    pub fn new(
        predecessor_id: String,
        successor_id: String,
        dependency_type: DependencyType,
        lag: LagType,
        created_by: String,
        description: Option<String>,
    ) -> (d: AdvancedDependency)
        ensures
            d.predecessor_id@ == predecessor_id@,
            d.successor_id@ == successor_id@,
            d.dependency_type == dependency_type,
            d.lag == lag,
            d.created_by@ == created_by@,
            opt_view(d.description) == opt_view(description),
            d.id@ == dependency_id_text(d.created_at),
    {
        let now = now_millis();
        AdvancedDependency {
            id: String::from_str("dep_").concat(i64_to_text(now).as_str()),
            predecessor_id,
            successor_id,
            dependency_type,
            lag,
            created_at: now,
            created_by,
            description,
        }
    }

    /// Checks that the dependency links two distinct, named tasks.
    pub fn validate(&self) -> (r: Result<(), DomainError>)
        ensures
            match dependency_error(self@) {
                Some((f, m)) => r matches Err(e) && e.is_validation(f, m),
                None => r is Ok,
            },
    {
        if str_eq(self.predecessor_id.as_str(), self.successor_id.as_str()) {
            return Err(DomainError::validation("dependency", "A task cannot depend on itself"));
        }
        if self.predecessor_id.as_str().is_empty() || self.successor_id.as_str().is_empty() {
            return Err(DomainError::validation("dependency", "Predecessor and successor IDs cannot be empty"));
        }
        Ok(())
    }

    /// A readable description of the dependency.
    pub fn description(&self) -> (s: String)
        ensures
            s@ == dependency_description(self@),
    {
        let base = self.predecessor_id.clone().concat(" ").concat(self.dependency_type.symbol())
            .concat(" ").concat(self.lag.description().as_str()).concat(" ")
            .concat(self.successor_id.as_str());
        match &self.description {
            Some(desc) => base.concat(" (").concat(desc.as_str()).concat(")"),
            None => base,
        }
    }
}

/// `chrono::Utc::now().timestamp_millis()`: the current time. Of the value, which
/// depends on the clock, only its range is claimed: a `chrono::DateTime<Utc>` holds
/// years from -262,143 to 262,142, whose instants lie within 9e15 milliseconds of the
/// Unix epoch.
#[verifier::external_body]
pub(crate) fn now_millis() -> (t: i64)
    ensures
        -9_000_000_000_000_000 <= t <= 9_000_000_000_000_000,
{
    chrono::Utc::now().timestamp_millis()
}

/// A task in the dependency graph.
#[derive(Debug)]
pub struct TaskNode {
    pub id: String,
    pub name: String,
    pub start_date: Option<Date>,
    pub end_date: Option<Date>,
    /// Duration in whole days.
    pub duration: Option<i64>,
    pub predecessors: Vec<String>,
    pub successors: Vec<String>,
}

/// The content of a task node.
pub struct TaskNodeView {
    pub id: Seq<char>,
    pub name: Seq<char>,
    pub start_date: Option<Date>,
    pub end_date: Option<Date>,
    pub duration: Option<i64>,
    pub predecessors: Seq<Seq<char>>,
    pub successors: Seq<Seq<char>>,
}

impl View for TaskNode {
    type V = TaskNodeView;

    open spec fn view(&self) -> TaskNodeView {
        TaskNodeView {
            id: self.id@,
            name: self.name@,
            start_date: self.start_date,
            end_date: self.end_date,
            duration: self.duration,
            predecessors: views(self.predecessors@),
            successors: views(self.successors@),
        }
    }
}

/// A list with an item appended unless it is already there.
pub open spec fn push_unique(s: Seq<Seq<char>>, x: Seq<char>) -> Seq<Seq<char>> {
    if s.contains(x) { s } else { s.push(x) }
}

/// A list with every occurrence of an item removed.
pub open spec fn remove_all(s: Seq<Seq<char>>, x: Seq<char>) -> Seq<Seq<char>>
    decreases s.len(),
{
    if s.len() == 0 {
        s
    } else if s.last() == x {
        remove_all(s.drop_last(), x)
    } else {
        remove_all(s.drop_last(), x).push(s.last())
    }
}

/// The duration of a task: the days between its dates when it has both and they are
/// in order, no duration when they are out of order, its own duration otherwise.
pub open spec fn node_duration(n: TaskNodeView) -> Option<i64> {
    match (n.start_date, n.end_date) {
        (Some(s), Some(e)) => if e.day() >= s.day() { Some((e.day() - s.day()) as i64) } else { None },
        _ => n.duration,
    }
}

impl TaskNodeView {
    pub open spec fn with_successor(self, s: Seq<char>) -> TaskNodeView {
        TaskNodeView { successors: push_unique(self.successors, s), ..self }
    }

    pub open spec fn with_predecessor(self, p: Seq<char>) -> TaskNodeView {
        TaskNodeView { predecessors: push_unique(self.predecessors, p), ..self }
    }

    pub open spec fn without_successor(self, s: Seq<char>) -> TaskNodeView {
        TaskNodeView { successors: remove_all(self.successors, s), ..self }
    }

    pub open spec fn without_predecessor(self, p: Seq<char>) -> TaskNodeView {
        TaskNodeView { predecessors: remove_all(self.predecessors, p), ..self }
    }
}

impl TaskNode {
    /// A task without predecessors or successors.
    pub fn new(
        id: String,
        name: String,
        start_date: Option<Date>,
        end_date: Option<Date>,
        duration: Option<i64>,
    ) -> (n: TaskNode)
        ensures
            n@.id == id@,
            n@.name == name@,
            n.start_date == start_date,
            n.end_date == end_date,
            n.duration == duration,
            n@.predecessors.len() == 0,
            n@.successors.len() == 0,
    {
        TaskNode { id, name, start_date, end_date, duration, predecessors: Vec::new(), successors: Vec::new() }
    }

    /// The duration of the task in days, from its dates when it has both.
    pub fn calculate_duration(&self) -> (r: Option<i64>)
        requires
            self.start_date matches Some(s) ==> s.wf(),
            self.end_date matches Some(e) ==> e.wf(),
        ensures
            r == node_duration(self@),
    {
        match (self.start_date, self.end_date) {
            (Some(start), Some(end)) => {
                if !end.before(&start) {
                    Some(end.days_since(&start))
                } else {
                    None
                }
            },
            _ => self.duration,
        }
    }
}

/// Whether a string list holds the given text.
pub fn contains_text(v: &Vec<String>, x: &str) -> (b: bool)
    ensures
        b == views(v@).contains(x@),
{
    let mut i: usize = 0;
    while i < v.len()
        invariant
            0 <= i <= v.len(),
            forall|j: int| 0 <= j < i ==> v@[j]@ != x@,
        decreases v.len() - i,
    {
        if str_eq(v[i].as_str(), x) {
            assert(views(v@)[i as int] == x@);
            return true;
        }
        i = i + 1;
    }
    proof {
        if views(v@).contains(x@) {
            let j = choose|j: int| 0 <= j < views(v@).len() && views(v@)[j] == x@;
            assert(v@[j]@ == x@);
        }
    }
    false
}

/// The list with every string equal to `x` removed.
pub fn retain_other_than(v: &Vec<String>, x: &str) -> (r: Vec<String>)
    ensures
        views(r@) == remove_all(views(v@), x@),
{
    let mut r: Vec<String> = Vec::new();
    let mut i: usize = 0;
    while i < v.len()
        invariant
            0 <= i <= v.len(),
            views(r@) == remove_all(views(v@).take(i as int), x@),
        decreases v.len() - i,
    {
        proof {
            assert(views(v@).take(i + 1).drop_last() =~= views(v@).take(i as int));
            assert(views(v@).take(i + 1).last() == v@[i as int]@);
        }
        if !str_eq(v[i].as_str(), x) {
            r.push(v[i].clone());
            assert(views(r@) =~= remove_all(views(v@).take(i as int), x@).push(v@[i as int]@));
        }
        i = i + 1;
    }
    assert(views(v@).take(v.len() as int) =~= views(v@));
    r
}

// ============================================================================
// THE GRAPH
// ============================================================================

/// The content of a dependency graph: its tasks, and for the task at each position
/// the dependencies of which it is the predecessor.
pub struct GraphModel {
    pub nodes: Seq<TaskNodeView>,
    pub deps: Seq<Seq<DependencyView>>,
}

impl GraphModel {
    /// Whether a task with this identifier is in the graph.
    pub open spec fn has_node(self, a: Seq<char>) -> bool {
        exists|i: int| 0 <= i < self.nodes.len() && #[trigger] self.nodes[i].id == a
    }

    /// The position of the task with this identifier.
    pub open spec fn index_of(self, a: Seq<char>) -> int {
        choose|i: int| 0 <= i < self.nodes.len() && #[trigger] self.nodes[i].id == a
    }

    /// Whether a dependency leads from task `a` to task `b`.
    pub open spec fn edge(self, a: Seq<char>, b: Seq<char>) -> bool {
        exists|i: int, k: int|
            #![trigger self.deps[i][k]]
            0 <= i < self.nodes.len() && 0 <= k < self.deps[i].len() && self.nodes[i].id == a
                && self.deps[i][k].successor_id == b
    }

    /// Whether a chain of `n` dependencies leads from `a` to `b`.
    pub open spec fn path(self, a: Seq<char>, b: Seq<char>, n: nat) -> bool
        decreases n,
    {
        if n == 0 {
            a == b
        } else {
            exists|c: Seq<char>| #[trigger] self.edge(a, c) && self.path(c, b, (n - 1) as nat)
        }
    }

    /// Whether some chain of dependencies (possibly empty) leads from `a` to `b`.
    pub open spec fn reaches(self, a: Seq<char>, b: Seq<char>) -> bool {
        exists|n: nat| self.path(a, b, n)
    }

    /// Whether no chain of one or more dependencies leads from a task back to itself.
    pub open spec fn acyclic(self) -> bool {
        forall|a: Seq<char>, n: nat| n > 0 ==> !#[trigger] self.path(a, a, n)
    }

    /// The invariant of every graph: one dependency list per task, distinct task
    /// identifiers, and each dependency filed under its predecessor, pointing to
    /// another task of the graph, with no two dependencies of a task to the same successor.
    pub open spec fn wf(self) -> bool {
        &&& self.deps.len() == self.nodes.len()
        &&& forall|i: int, j: int|
            0 <= i < self.nodes.len() && 0 <= j < self.nodes.len() && i != j
                ==> #[trigger] self.nodes[i].id != #[trigger] self.nodes[j].id
        &&& forall|i: int, k: int|
            #![trigger self.deps[i][k]]
            0 <= i < self.nodes.len() && 0 <= k < self.deps[i].len() ==> {
                &&& self.deps[i][k].predecessor_id == self.nodes[i].id
                &&& self.has_node(self.deps[i][k].successor_id)
                &&& self.deps[i][k].successor_id != self.nodes[i].id
            }
        &&& forall|i: int, k1: int, k2: int|
            #![trigger self.deps[i][k1], self.deps[i][k2]]
            0 <= i < self.nodes.len() && 0 <= k1 < self.deps[i].len() && 0 <= k2 < self.deps[i].len()
                && k1 != k2 ==> self.deps[i][k1].successor_id != self.deps[i][k2].successor_id
    }

    /// The graph after adding (or replacing) a task: a replaced task loses its dependencies.
    pub open spec fn with_task(self, t: TaskNodeView) -> GraphModel {
        if self.has_node(t.id) {
            let i = self.index_of(t.id);
            GraphModel { nodes: self.nodes.update(i, t), deps: self.deps.update(i, Seq::empty()) }
        } else {
            GraphModel { nodes: self.nodes.push(t), deps: self.deps.push(Seq::empty()) }
        }
    }

    /// Which validation error, if any, adding the dependency meets: `(field, message)`.
    pub open spec fn add_dependency_error(self, d: DependencyView) -> Option<(Seq<char>, Seq<char>)> {
        if dependency_error(d) is Some {
            dependency_error(d)
        } else if !self.has_node(d.predecessor_id) {
            Some(("predecessor_id"@, "Predecessor task does not exist"@))
        } else if !self.has_node(d.successor_id) {
            Some(("successor_id"@, "Successor task does not exist"@))
        } else if self.edge(d.predecessor_id, d.successor_id) {
            Some(("dependency"@, "Dependency already exists"@))
        } else if self.reaches(d.successor_id, d.predecessor_id) {
            Some(("dependency"@, "Dependency would create a cycle"@))
        } else {
            None
        }
    }

    /// The graph after adding a dependency that passed every check.
    pub open spec fn added(self, d: DependencyView) -> GraphModel {
        let pi = self.index_of(d.predecessor_id);
        let si = self.index_of(d.successor_id);
        let nodes1 = self.nodes.update(pi, self.nodes[pi].with_successor(d.successor_id));
        let nodes2 = nodes1.update(si, nodes1[si].with_predecessor(d.predecessor_id));
        GraphModel { nodes: nodes2, deps: self.deps.update(pi, self.deps[pi].push(d)) }
    }

    /// The graph after removing the dependency from `p` to `s`, wherever there is one.
    pub open spec fn removed(self, p: Seq<char>, s: Seq<char>) -> GraphModel {
        let deps1 = if self.has_node(p) {
            let pi = self.index_of(p);
            self.deps.update(pi, remove_first_to(self.deps[pi], s))
        } else {
            self.deps
        };
        let nodes1 = if self.has_node(p) {
            let pi = self.index_of(p);
            self.nodes.update(pi, self.nodes[pi].without_successor(s))
        } else {
            self.nodes
        };
        let nodes2 = if self.has_node(s) {
            let si = self.index_of(s);
            nodes1.update(si, nodes1[si].without_predecessor(p))
        } else {
            nodes1
        };
        GraphModel { nodes: nodes2, deps: deps1 }
    }

    /// The graph with new dates for the task with this identifier, where there is one.
    pub open spec fn with_dates(self, t: Seq<char>, start: Option<Date>, end: Option<Date>) -> GraphModel {
        if self.has_node(t) {
            let i = self.index_of(t);
            GraphModel {
                nodes: self.nodes.update(i, TaskNodeView { start_date: start, end_date: end, ..self.nodes[i] }),
                deps: self.deps,
            }
        } else {
            self
        }
    }

    /// The graph where the dependency filed under `p` that leads to `s`, if there is
    /// one, takes a new type and a new lag where these are given.
    pub open spec fn with_dependency_changed(
        self,
        p: Seq<char>,
        s: Seq<char>,
        t: Option<DependencyType>,
        l: Option<LagType>,
    ) -> GraphModel {
        if self.has_node(p) {
            let i = self.index_of(p);
            GraphModel {
                nodes: self.nodes,
                deps: self.deps.update(i, self.deps[i].map_values(|d: DependencyView| changed_dependency(d, s, t, l))),
            }
        } else {
            self
        }
    }

    /// The dependencies filed under a task: those of which it is the predecessor.
    pub open spec fn dependencies_of(self, a: Seq<char>) -> Seq<DependencyView> {
        if self.has_node(a) { self.deps[self.index_of(a)] } else { Seq::empty() }
    }

    /// The dependencies, among those filed under the first `i` tasks, whose successor is `a`.
    pub open spec fn dependents_upto(self, a: Seq<char>, i: int) -> Seq<DependencyView>
        decreases i,
    {
        if i <= 0 {
            Seq::empty()
        } else {
            self.dependents_upto(a, i - 1) + self.deps[i - 1].filter(|d: DependencyView| d.successor_id == a)
        }
    }

    /// All dependencies whose successor is `a`, in the order of their predecessors.
    pub open spec fn dependents_of(self, a: Seq<char>) -> Seq<DependencyView> {
        self.dependents_upto(a, self.nodes.len() as int)
    }

    /// The identifiers of the first `i` tasks that have no predecessors.
    pub open spec fn roots_upto(self, i: int) -> Seq<Seq<char>>
        decreases i,
    {
        if i <= 0 {
            Seq::empty()
        } else if self.nodes[i - 1].predecessors.len() == 0 {
            self.roots_upto(i - 1).push(self.nodes[i - 1].id)
        } else {
            self.roots_upto(i - 1)
        }
    }
}

/// A dependency with a new type and a new lag where these are given, if it leads to `s`.
pub open spec fn changed_dependency(d: DependencyView, s: Seq<char>, t: Option<DependencyType>, l: Option<LagType>) -> DependencyView {
    if d.successor_id == s {
        DependencyView {
            dependency_type: match t {
                Some(x) => x,
                None => d.dependency_type,
            },
            lag: match l {
                Some(x) => x,
                None => d.lag,
            },
            ..d
        }
    } else {
        d
    }
}

/// Whether two graphs have the same tasks, by identifier and position, and the same
/// dependencies, by their two ends and position.
pub open spec fn same_shape(g1: GraphModel, g2: GraphModel) -> bool {
    &&& g1.nodes.len() == g2.nodes.len()
    &&& g1.deps.len() == g2.deps.len()
    &&& forall|i: int| 0 <= i < g1.nodes.len() ==> #[trigger] g1.nodes[i].id == g2.nodes[i].id
    &&& forall|i: int| 0 <= i < g1.deps.len() ==> #[trigger] g1.deps[i].len() == g2.deps[i].len()
    &&& forall|i: int, k: int| #![trigger g2.deps[i][k]]
        0 <= i < g1.deps.len() && 0 <= k < g1.deps[i].len() ==> g1.deps[i][k].successor_id == g2.deps[i][k].successor_id
            && g1.deps[i][k].predecessor_id == g2.deps[i][k].predecessor_id
}

/// A dependency list without the first dependency to `s`, where there is one.
pub open spec fn remove_first_to(list: Seq<DependencyView>, s: Seq<char>) -> Seq<DependencyView>
    decreases list.len(),
{
    if list.len() == 0 {
        list
    } else if list[0].successor_id == s {
        list.skip(1)
    } else {
        seq![list[0]] + remove_first_to(list.skip(1), s)
    }
}

/// A graph of tasks and of the dependencies between them.
#[derive(Debug)]
pub struct AdvancedDependencyGraph {
    nodes: Vec<TaskNode>,
    dependencies: Vec<Vec<AdvancedDependency>>,
}

impl View for AdvancedDependencyGraph {
    type V = GraphModel;

    closed spec fn view(&self) -> GraphModel {
        GraphModel {
            nodes: self.nodes@.map_values(|n: TaskNode| n@),
            deps: self.dependencies@.map_values(|v: Vec<AdvancedDependency>| v@.map_values(|d: AdvancedDependency| d@)),
        }
    }
}

// ----------------------------------------------------------------------------
// Lemmas on chains of dependencies
// ----------------------------------------------------------------------------

/// In a graph with distinct identifiers, the position found for an identifier is its own.
pub proof fn lemma_index_of(g: GraphModel, i: int)
    requires
        g.wf(),
        0 <= i < g.nodes.len(),
    ensures
        g.index_of(g.nodes[i].id) == i,
        g.has_node(g.nodes[i].id),
{
    let a = g.nodes[i].id;
    assert(g.has_node(a));
    let j = g.index_of(a);
    assert(g.nodes[j].id == a);
}

/// A chain followed by one more dependency is a chain.
pub proof fn lemma_path_append(g: GraphModel, a: Seq<char>, b: Seq<char>, c: Seq<char>, n: nat)
    requires
        g.path(a, b, n),
        g.edge(b, c),
    ensures
        g.path(a, c, n + 1),
    decreases n,
{
    if n == 0 {
        assert(g.path(c, c, 0));
        assert(g.edge(a, c) && g.path(c, c, 0));
    } else {
        let d = choose|d: Seq<char>| #[trigger] g.edge(a, d) && g.path(d, b, (n - 1) as nat);
        lemma_path_append(g, d, b, c, (n - 1) as nat);
        assert(g.edge(a, d) && g.path(d, c, n));
    }
}

/// Two chains that meet form a chain.
pub proof fn lemma_path_concat(g: GraphModel, a: Seq<char>, b: Seq<char>, c: Seq<char>, m: nat, k: nat)
    requires
        g.path(a, b, m),
        g.path(b, c, k),
    ensures
        g.path(a, c, m + k),
    decreases m,
{
    if m > 0 {
        let d = choose|d: Seq<char>| #[trigger] g.edge(a, d) && g.path(d, b, (m - 1) as nat);
        lemma_path_concat(g, d, b, c, (m - 1) as nat, k);
        assert(g.edge(a, d) && g.path(d, c, (m - 1 + k) as nat));
    }
}

/// No chain leaves a task that is not in the graph.
pub proof fn lemma_no_path_from_outside(g: GraphModel, a: Seq<char>, b: Seq<char>, n: nat)
    requires
        !g.has_node(a),
        a != b,
    ensures
        !g.path(a, b, n),
{
    if n > 0 && g.path(a, b, n) {
        let c = choose|c: Seq<char>| #[trigger] g.edge(a, c) && g.path(c, b, (n - 1) as nat);
        let (i, k) = choose|i: int, k: int|
            #![trigger g.deps[i][k]]
            0 <= i < g.nodes.len() && 0 <= k < g.deps[i].len() && g.nodes[i].id == a
                && g.deps[i][k].successor_id == c;
        assert(g.has_node(a));
    }
}

/// Number of unmarked entries.
pub open spec fn count_false(s: Seq<bool>) -> nat
    decreases s.len(),
{
    if s.len() == 0 {
        0
    } else {
        count_false(s.drop_last()) + if s.last() { 0nat } else { 1nat }
    }
}

/// Marking an unmarked entry lowers the count of unmarked entries by one.
pub proof fn lemma_count_false_mark(s: Seq<bool>, i: int)
    requires
        0 <= i < s.len(),
        !s[i],
    ensures
        count_false(s.update(i, true)) + 1 == count_false(s),
    decreases s.len(),
{
    let t = s.update(i, true);
    if i == s.len() - 1 {
        assert(t.drop_last() =~= s.drop_last());
    } else {
        assert(t.drop_last() =~= s.drop_last().update(i, true));
        lemma_count_false_mark(s.drop_last(), i);
    }
}

/// Every dependency of the task at `x` leads away from `target`, to a visited task.
pub open spec fn closed_at(g: GraphModel, visited: Seq<bool>, x: int, target: Seq<char>) -> bool {
    forall|k: int|
        0 <= k < g.deps[x].len() ==> {
            &&& (#[trigger] g.deps[x][k]).successor_id != target
            &&& visited[g.index_of(g.deps[x][k].successor_id)]
        }
}

/// Visiting more tasks keeps a task closed.
pub proof fn lemma_closed_mono(g: GraphModel, v0: Seq<bool>, v1: Seq<bool>, x: int, target: Seq<char>)
    requires
        v0.len() == v1.len(),
        forall|i: int| 0 <= i < v0.len() && #[trigger] v0[i] ==> v1[i],
        closed_at(g, v0, x, target),
        forall|k: int| 0 <= k < g.deps[x].len() ==> 0 <= g.index_of((#[trigger] g.deps[x][k]).successor_id) < v0.len(),
    ensures
        closed_at(g, v1, x, target),
{
    assert forall|k: int| 0 <= k < g.deps[x].len() implies {
        &&& (#[trigger] g.deps[x][k]).successor_id != target
        &&& v1[g.index_of(g.deps[x][k].successor_id)]
    } by {
        assert(v0[g.index_of(g.deps[x][k].successor_id)]);
    }
}

/// When every visited task is closed and is not the target, no chain leads from a
/// visited task to the target.
pub proof fn lemma_closed_unreachable(g: GraphModel, visited: Seq<bool>, target: Seq<char>, x: int, n: nat)
    requires
        g.wf(),
        visited.len() == g.nodes.len(),
        forall|j: int|
            0 <= j < g.nodes.len() && #[trigger] visited[j] ==> closed_at(g, visited, j, target)
                && g.nodes[j].id != target,
        0 <= x < g.nodes.len(),
        visited[x],
    ensures
        !g.path(g.nodes[x].id, target, n),
    decreases n,
{
    if n > 0 && g.path(g.nodes[x].id, target, n) {
        let a = g.nodes[x].id;
        let c = choose|c: Seq<char>| #[trigger] g.edge(a, c) && g.path(c, target, (n - 1) as nat);
        let (i, k) = choose|i: int, k: int|
            #![trigger g.deps[i][k]]
            0 <= i < g.nodes.len() && 0 <= k < g.deps[i].len() && g.nodes[i].id == a
                && g.deps[i][k].successor_id == c;
        assert(i == x);
        assert(closed_at(g, visited, x, target));
        let y = g.index_of(c);
        assert(g.has_node(c));
        assert(g.nodes[y].id == c);
        assert(visited[y]);
        lemma_closed_unreachable(g, visited, target, y, (n - 1) as nat);
    }
}

impl AdvancedDependencyGraph {
    /// The invariant of the graph.
    pub closed spec fn wf(&self) -> bool {
        &&& self@.wf()
        &&& self@.acyclic()
        &&& self.dependencies@.len() == self.nodes@.len()
        &&& forall|i: int| 0 <= i < self.nodes@.len() ==> {
            &&& (#[trigger] self.nodes@[i]).start_date matches Some(s) ==> s.wf()
            &&& self.nodes@[i].end_date matches Some(e) ==> e.wf()
        }
    }

    proof fn lemma_view_facts(&self)
        ensures
            self@.nodes.len() == self.nodes@.len(),
            self@.deps.len() == self.dependencies@.len(),
            forall|i: int| 0 <= i < self.nodes@.len() ==> #[trigger] self@.nodes[i] == self.nodes@[i]@,
            forall|i: int| 0 <= i < self.dependencies@.len() ==> #[trigger] self@.deps[i].len() == self.dependencies@[i]@.len(),
            forall|i: int, k: int| 0 <= i < self.dependencies@.len() && 0 <= k < self.dependencies@[i]@.len()
                ==> #[trigger] self@.deps[i][k] == self.dependencies@[i]@[k]@,
    {
    }

    /// An empty graph.
    pub fn new() -> (g: AdvancedDependencyGraph)
        ensures
            g.wf(),
            g@.nodes.len() == 0,
            g@.deps.len() == 0,
    {
        let g = AdvancedDependencyGraph { nodes: Vec::new(), dependencies: Vec::new() };
        assert(g@.nodes =~= Seq::empty());
        g
    }

    /// The number of tasks.
    pub fn node_count(&self) -> (n: usize)
        ensures
            n == self@.nodes.len(),
    {
        proof { self.lemma_view_facts(); }
        self.nodes.len()
    }

    /// The number of dependency lists, one per task.
    pub fn dependency_list_count(&self) -> (n: usize)
        ensures
            n == self@.deps.len(),
    {
        proof { self.lemma_view_facts(); }
        self.dependencies.len()
    }

    /// The position of the task with this identifier.
    fn find_node(&self, id: &str) -> (r: Option<usize>)
        requires
            self.wf(),
        ensures
            r matches Some(i) ==> i < self@.nodes.len() && self@.nodes[i as int].id == id@
                && self@.index_of(id@) == i && self@.has_node(id@),
            r is None ==> !self@.has_node(id@),
    {
        proof { self.lemma_view_facts(); }
        let mut i: usize = 0;
        while i < self.nodes.len()
            invariant
                self.wf(),
                0 <= i <= self.nodes.len(),
                forall|j: int| 0 <= j < i ==> self@.nodes[j].id != id@,
            decreases self.nodes.len() - i,
        {
            proof { self.lemma_view_facts(); }
            if str_eq(self.nodes[i].id.as_str(), id) {
                proof { lemma_index_of(self@, i as int); }
                return Some(i);
            }
            i = i + 1;
        }
        proof {
            self.lemma_view_facts();
            if self@.has_node(id@) {
                let j = choose|j: int| 0 <= j < self@.nodes.len() && #[trigger] self@.nodes[j].id == id@;
            }
        }
        None
    }

    /// Whether a task with this identifier is in the graph.
    pub fn contains_task(&self, id: &str) -> (b: bool)
        requires
            self.wf(),
        ensures
            b == self@.has_node(id@),
    {
        self.find_node(id).is_some()
    }

    /// The task with this identifier.
    pub fn get_node(&self, id: &str) -> (r: Option<&TaskNode>)
        requires
            self.wf(),
        ensures
            match r {
                Some(n) => self@.has_node(id@) && n@ == self@.nodes[self@.index_of(id@)]
                    && (n.start_date matches Some(s) ==> s.wf()) && (n.end_date matches Some(e) ==> e.wf()),
                None => !self@.has_node(id@),
            },
    {
        proof { self.lemma_view_facts(); }
        match self.find_node(id) {
            Some(i) => Some(&self.nodes[i]),
            None => None,
        }
    }

    /// Adds a task, replacing the task with the same identifier and its dependencies.
    pub fn add_task(&mut self, task: TaskNode)
        requires
            old(self).wf(),
            task.start_date matches Some(s) ==> s.wf(),
            task.end_date matches Some(e) ==> e.wf(),
        ensures
            final(self).wf(),
            final(self)@ == old(self)@.with_task(task@),
    {
        let ghost g0 = self@;
        let ghost t = task@;
        proof {
            self.lemma_view_facts();
            lemma_add_task_keeps_acyclic(g0, t);
        }
        match self.find_node(task.id.as_str()) {
            Some(i) => {
                self.nodes.set(i, task);
                self.dependencies.set(i, Vec::new());
                proof {
                    self.lemma_view_facts();
                    assert(self@.nodes =~= g0.nodes.update(i as int, t));
                    assert(self@.deps[i as int] =~= Seq::<DependencyView>::empty());
                    assert(self@.deps =~= g0.deps.update(i as int, Seq::empty()));
                    let g1 = self@;
                    assert forall|i2: int, k: int|
                        #![trigger g1.deps[i2][k]]
                        0 <= i2 < g1.nodes.len() && 0 <= k < g1.deps[i2].len() implies {
                            &&& g1.deps[i2][k].predecessor_id == g1.nodes[i2].id
                            &&& g1.has_node(g1.deps[i2][k].successor_id)
                            &&& g1.deps[i2][k].successor_id != g1.nodes[i2].id
                        } by {
                        assert(i2 != i);
                        assert(g0.deps[i2][k] == g1.deps[i2][k]);
                        let s = g0.deps[i2][k].successor_id;
                        let j = choose|j: int| 0 <= j < g0.nodes.len() && #[trigger] g0.nodes[j].id == s;
                        assert(g1.nodes[j].id == s);
                    }
                    assert forall|i2: int, k1: int, k2: int|
                        #![trigger g1.deps[i2][k1], g1.deps[i2][k2]]
                        0 <= i2 < g1.nodes.len() && 0 <= k1 < g1.deps[i2].len() && 0 <= k2 < g1.deps[i2].len()
                            && k1 != k2 implies g1.deps[i2][k1].successor_id != g1.deps[i2][k2].successor_id by {
                        assert(g0.deps[i2][k1] == g1.deps[i2][k1]);
                        assert(g0.deps[i2][k2] == g1.deps[i2][k2]);
                    }
                }
            },
            None => {
                self.nodes.push(task);
                self.dependencies.push(Vec::new());
                proof {
                    self.lemma_view_facts();
                    assert(self@.nodes =~= g0.nodes.push(t));
                    assert(self@.deps[g0.deps.len() as int] =~= Seq::<DependencyView>::empty());
                    assert(self@.deps =~= g0.deps.push(Seq::empty()));
                    let g1 = self@;
                    assert forall|i2: int, k: int|
                        #![trigger g1.deps[i2][k]]
                        0 <= i2 < g1.nodes.len() && 0 <= k < g1.deps[i2].len() implies {
                            &&& g1.deps[i2][k].predecessor_id == g1.nodes[i2].id
                            &&& g1.has_node(g1.deps[i2][k].successor_id)
                            &&& g1.deps[i2][k].successor_id != g1.nodes[i2].id
                        } by {
                        assert(g0.deps[i2][k] == g1.deps[i2][k]);
                        let s = g0.deps[i2][k].successor_id;
                        let j = choose|j: int| 0 <= j < g0.nodes.len() && #[trigger] g0.nodes[j].id == s;
                        assert(g1.nodes[j].id == s);
                    }
                    assert forall|i2: int, k1: int, k2: int|
                        #![trigger g1.deps[i2][k1], g1.deps[i2][k2]]
                        0 <= i2 < g1.nodes.len() && 0 <= k1 < g1.deps[i2].len() && 0 <= k2 < g1.deps[i2].len()
                            && k1 != k2 implies g1.deps[i2][k1].successor_id != g1.deps[i2][k2].successor_id by {
                        assert(g0.deps[i2][k1] == g1.deps[i2][k1]);
                        assert(g0.deps[i2][k2] == g1.deps[i2][k2]);
                    }
                }
            },
        }
    }

    /// Whether a dependency leads from `predecessor_id` to `successor_id`.
    pub fn has_dependency(&self, predecessor_id: &str, successor_id: &str) -> (b: bool)
        requires
            self.wf(),
        ensures
            b == self@.edge(predecessor_id@, successor_id@),
    {
        proof { self.lemma_view_facts(); }
        match self.find_node(predecessor_id) {
            None => {
                proof {
                    if self@.edge(predecessor_id@, successor_id@) {
                        let (i, k) = choose|i: int, k: int|
                            #![trigger self@.deps[i][k]]
                            0 <= i < self@.nodes.len() && 0 <= k < self@.deps[i].len()
                                && self@.nodes[i].id == predecessor_id@
                                && self@.deps[i][k].successor_id == successor_id@;
                        assert(self@.has_node(predecessor_id@));
                    }
                }
                false
            },
            Some(i) => {
                let deps = &self.dependencies[i];
                let mut k: usize = 0;
                while k < deps.len()
                    invariant
                        self.wf(),
                        i < self@.nodes.len(),
                        deps@ == self.dependencies@[i as int]@,
                        self@.nodes[i as int].id == predecessor_id@,
                        0 <= k <= deps.len(),
                        forall|k2: int| 0 <= k2 < k ==> self@.deps[i as int][k2].successor_id != successor_id@,
                    decreases deps.len() - k,
                {
                    proof { self.lemma_view_facts(); }
                    if str_eq(deps[k].successor_id.as_str(), successor_id) {
                        assert(self@.deps[i as int][k as int].successor_id == successor_id@);
                        return true;
                    }
                    k = k + 1;
                }
                proof {
                    self.lemma_view_facts();
                    if self@.edge(predecessor_id@, successor_id@) {
                        let (i2, k2) = choose|i2: int, k2: int|
                            #![trigger self@.deps[i2][k2]]
                            0 <= i2 < self@.nodes.len() && 0 <= k2 < self@.deps[i2].len()
                                && self@.nodes[i2].id == predecessor_id@
                                && self@.deps[i2][k2].successor_id == successor_id@;
                        assert(i2 == i);
                    }
                }
                false
            },
        }
    }

    /// Whether a chain of dependencies leads from the task at `start` to `target`.
    fn reaches_from(&self, start: usize, target: &str) -> (b: bool)
        requires
            self.wf(),
            start < self@.nodes.len(),
            self@.nodes[start as int].id != target@,
        ensures
            b == self@.reaches(self@.nodes[start as int].id, target@),
    {
        proof { self.lemma_view_facts(); }
        let ghost g = self@;
        let ghost sid = g.nodes[start as int].id;
        let n = self.nodes.len();
        let mut visited: Vec<bool> = Vec::new();
        let mut i: usize = 0;
        while i < n
            invariant
                0 <= i <= n,
                visited@.len() == i,
                forall|j: int| 0 <= j < i ==> !visited@[j],
            decreases n - i,
        {
            visited.push(false);
            i = i + 1;
        }
        proof {
            lemma_count_false_mark(visited@, start as int);
            assert(g.path(sid, sid, 0));
        }
        visited.set(start, true);
        let mut stack: Vec<usize> = Vec::new();
        stack.push(start);
        proof {
            assert(stack@[0] == start);
            assert forall|j: int| 0 <= j < n && #[trigger] visited@[j] implies (stack@.contains(j as usize) || closed_at(g, visited@, j, target@)) by {
                assert(j == start as int);
            }
        }
        while stack.len() > 0
            invariant
                self.wf(),
                g == self@,
                n == g.nodes.len(),
                visited@.len() == n,
                start < n,
                sid == g.nodes[start as int].id,
                sid != target@,
                visited@[start as int],
                forall|j: int| 0 <= j < n && #[trigger] visited@[j] ==> g.reaches(sid, g.nodes[j].id) && g.nodes[j].id != target@,
                forall|q: int| 0 <= q < stack@.len() ==> (#[trigger] stack@[q]) < n && visited@[stack@[q] as int],
                forall|j: int| 0 <= j < n && #[trigger] visited@[j] ==> (stack@.contains(j as usize) || closed_at(g, visited@, j, target@)),
            decreases 2 * count_false(visited@) + stack@.len(),
        {
            let ghost measure0 = 2 * count_false(visited@) + stack@.len();
            let ghost stack0 = stack@;
            let j = stack.pop().unwrap();
            proof {
                assert(stack0 == stack@.push(j));
                assert(stack0[stack0.len() - 1] == j);
            }
            let deps = &self.dependencies[j];
            let mut k: usize = 0;
            while k < deps.len()
                invariant
                    self.wf(),
                    g == self@,
                    n == g.nodes.len(),
                    visited@.len() == n,
                    sid != target@,
                    start < n,
                    sid == g.nodes[start as int].id,
                    visited@[start as int],
                    j < n,
                    deps@ == self.dependencies@[j as int]@,
                    visited@[j as int],
                    0 <= k <= deps.len(),
                    forall|jj: int| 0 <= jj < n && #[trigger] visited@[jj] ==> g.reaches(sid, g.nodes[jj].id) && g.nodes[jj].id != target@,
                    forall|q: int| 0 <= q < stack@.len() ==> (#[trigger] stack@[q]) < n && visited@[stack@[q] as int],
                    forall|jj: int| 0 <= jj < n && #[trigger] visited@[jj] ==> (stack@.contains(jj as usize) || closed_at(g, visited@, jj, target@) || jj == j),
                    forall|k2: int| 0 <= k2 < k ==> {
                        &&& (#[trigger] g.deps[j as int][k2]).successor_id != target@
                        &&& visited@[g.index_of(g.deps[j as int][k2].successor_id)]
                    },
                    2 * count_false(visited@) + stack@.len() < measure0,
                decreases deps.len() - k,
            {
                proof { self.lemma_view_facts(); }
                let ghost d = g.deps[j as int][k as int];
                let ghost jid = g.nodes[j as int].id;
                proof {
                    assert(g.edge(jid, d.successor_id));
                    let m = choose|m: nat| g.path(sid, jid, m);
                    lemma_path_append(g, sid, jid, d.successor_id, m);
                    assert(g.path(sid, d.successor_id, m + 1));
                    assert(g.reaches(sid, d.successor_id));
                    assert(deps@[k as int]@ == d);
                }
                if str_eq(deps[k].successor_id.as_str(), target) {
                    return true;
                }
                let si = self.find_node(deps[k].successor_id.as_str()).unwrap();
                if !visited[si] {
                    let ghost v0 = visited@;
                    let ghost st0 = stack@;
                    proof { lemma_count_false_mark(visited@, si as int); }
                    visited.set(si, true);
                    stack.push(si);
                    proof {
                        assert(stack@ == st0.push(si));
                        assert forall|jj: int| 0 <= jj < n && #[trigger] visited@[jj] implies (stack@.contains(jj as usize) || closed_at(g, visited@, jj, target@) || jj == j) by {
                            if jj == si as int {
                                assert(stack@[stack@.len() - 1] == si);
                            } else {
                                assert(v0[jj]);
                                if st0.contains(jj as usize) {
                                    let q = choose|q: int| 0 <= q < st0.len() && st0[q] == jj as usize;
                                    assert(stack@[q] == jj as usize);
                                } else if jj != j {
                                    lemma_closed_mono(g, v0, visited@, jj, target@);
                                }
                            }
                        }
                        assert forall|k2: int| 0 <= k2 < k + 1 implies {
                            &&& (#[trigger] g.deps[j as int][k2]).successor_id != target@
                            &&& visited@[g.index_of(g.deps[j as int][k2].successor_id)]
                        } by {
                            if k2 < k {
                                assert(v0[g.index_of(g.deps[j as int][k2].successor_id)]);
                            }
                        }
                    }
                }
                k = k + 1;
            }
            proof {
                assert(closed_at(g, visited@, j as int, target@));
            }
        }
        proof {
            assert forall|jj: int| 0 <= jj < g.nodes.len() && #[trigger] visited@[jj] implies closed_at(g, visited@, jj, target@)
                && g.nodes[jj].id != target@ by {
            }
            assert forall|m: nat| !g.path(sid, target@, m) by {
                lemma_closed_unreachable(g, visited@, target@, start as int, m);
            }
        }
        false
    }

    /// Whether a chain of one or more dependencies leads from `task_id` to `target_id`.
    pub fn is_predecessor(&self, task_id: &str, target_id: &str) -> (b: bool)
        requires
            self.wf(),
        ensures
            b == (task_id@ != target_id@ && self@.reaches(task_id@, target_id@)),
    {
        if str_eq(task_id, target_id) {
            return false;
        }
        match self.find_node(task_id) {
            None => {
                proof {
                    assert forall|m: nat| !self@.path(task_id@, target_id@, m) by {
                        lemma_no_path_from_outside(self@, task_id@, target_id@, m);
                    }
                }
                false
            },
            Some(i) => self.reaches_from(i, target_id),
        }
    }

    /// Whether adding a dependency from `predecessor_id` to `successor_id` would close a cycle.
    pub fn would_create_cycle(&self, predecessor_id: &str, successor_id: &str) -> (b: bool)
        requires
            self.wf(),
        ensures
            b == (successor_id@ != predecessor_id@ && self@.reaches(successor_id@, predecessor_id@)),
    {
        self.is_predecessor(successor_id, predecessor_id)
    }
}

impl AdvancedDependencyGraph {
    /// Adds a dependency after checking it: it must link two distinct, named tasks of
    /// the graph, not repeat an existing dependency, and not close a cycle.
    pub fn add_dependency(&mut self, dependency: AdvancedDependency) -> (r: Result<(), DomainError>)
        requires
            old(self).wf(),
        ensures
            final(self).wf(),
            match old(self)@.add_dependency_error(dependency@) {
                Some((f, m)) => r matches Err(e) && e.is_validation(f, m) && final(self)@ == old(self)@,
                None => r is Ok && final(self)@ == old(self)@.added(dependency@),
            },
    {
        let ghost g0 = self@;
        let ghost d = dependency@;
        match dependency.validate() {
            Err(e) => { return Err(e); },
            Ok(()) => {},
        }
        let pi = match self.find_node(dependency.predecessor_id.as_str()) {
            None => { return Err(DomainError::validation("predecessor_id", "Predecessor task does not exist")); },
            Some(i) => i,
        };
        let si = match self.find_node(dependency.successor_id.as_str()) {
            None => { return Err(DomainError::validation("successor_id", "Successor task does not exist")); },
            Some(i) => i,
        };
        if self.has_dependency(dependency.predecessor_id.as_str(), dependency.successor_id.as_str()) {
            return Err(DomainError::validation("dependency", "Dependency already exists"));
        }
        if self.would_create_cycle(dependency.predecessor_id.as_str(), dependency.successor_id.as_str()) {
            return Err(DomainError::validation("dependency", "Dependency would create a cycle"));
        }
        proof { self.lemma_view_facts(); }
        let succ_id = dependency.successor_id.clone();
        let pred_id = dependency.predecessor_id.clone();
        let ghost old_deps = self.dependencies@;
        self.dependencies[pi].push(dependency);
        if !contains_text(&self.nodes[pi].successors, succ_id.as_str()) {
            self.nodes[pi].successors.push(succ_id);
        }
        if !contains_text(&self.nodes[si].predecessors, pred_id.as_str()) {
            self.nodes[si].predecessors.push(pred_id);
        }
        proof {
            self.lemma_view_facts();
            let g1 = self@;
            let ga = g0.added(d);
            assert(pi != si);
            assert(self.dependencies@[pi as int]@ == old_deps[pi as int]@.push(self.dependencies@[pi as int]@.last()));
            assert(g1.deps[pi as int] =~= g0.deps[pi as int].push(d));
            assert(g1.deps =~= ga.deps);
            assert(g1.nodes[pi as int].successors =~= ga.nodes[pi as int].successors);
            assert(g1.nodes[si as int].predecessors =~= ga.nodes[si as int].predecessors);
            assert(g1.nodes =~= ga.nodes);
            assert forall|i: int| 0 <= i < g1.nodes.len() implies #[trigger] g1.nodes[i].id == g0.nodes[i].id by {}
            assert forall|i2: int, k: int|
                #![trigger g1.deps[i2][k]]
                0 <= i2 < g1.nodes.len() && 0 <= k < g1.deps[i2].len() implies {
                    &&& g1.deps[i2][k].predecessor_id == g1.nodes[i2].id
                    &&& g1.has_node(g1.deps[i2][k].successor_id)
                    &&& g1.deps[i2][k].successor_id != g1.nodes[i2].id
                } by {
                let s = g1.deps[i2][k].successor_id;
                if i2 == pi as int && k == g0.deps[pi as int].len() {
                    assert(g1.nodes[si as int].id == s);
                } else {
                    assert(g1.deps[i2][k] == g0.deps[i2][k]);
                    let j = choose|j: int| 0 <= j < g0.nodes.len() && #[trigger] g0.nodes[j].id == s;
                    assert(g1.nodes[j].id == s);
                }
            }
            assert forall|i2: int, k1: int, k2: int|
                #![trigger g1.deps[i2][k1], g1.deps[i2][k2]]
                0 <= i2 < g1.nodes.len() && 0 <= k1 < g1.deps[i2].len() && 0 <= k2 < g1.deps[i2].len()
                    && k1 != k2 implies g1.deps[i2][k1].successor_id != g1.deps[i2][k2].successor_id by {
                let last = g0.deps[pi as int].len() as int;
                if i2 == pi as int && (k1 == last || k2 == last) {
                    let other = if k1 == last { k2 } else { k1 };
                    assert(g1.deps[i2][other] == g0.deps[i2][other]);
                    if g0.deps[i2][other].successor_id == d.successor_id {
                        assert(g0.edge(d.predecessor_id, d.successor_id));
                    }
                } else {
                    assert(g1.deps[i2][k1] == g0.deps[i2][k1]);
                    assert(g1.deps[i2][k2] == g0.deps[i2][k2]);
                }
            }
            assert forall|i: int| 0 <= i < self.nodes@.len() implies {
                &&& (#[trigger] self.nodes@[i]).start_date matches Some(s) ==> s.wf()
                &&& self.nodes@[i].end_date matches Some(e) ==> e.wf()
            } by {
                assert(g1.nodes[i].start_date == g0.nodes[i].start_date);
                assert(g1.nodes[i].end_date == g0.nodes[i].end_date);
            }
            lemma_add_dependency_keeps_acyclic(g0, d);
        }
        Ok(())
    }

    /// Removes the dependency from `predecessor_id` to `successor_id`, if there is one,
    /// and the mention of each task among the other's successors or predecessors.
    pub fn remove_dependency(&mut self, predecessor_id: &str, successor_id: &str) -> (r: Result<(), DomainError>)
        requires
            old(self).wf(),
        ensures
            final(self).wf(),
            r is Ok,
            final(self)@ == old(self)@.removed(predecessor_id@, successor_id@),
    {
        let ghost g0 = self@;
        proof {
            self.lemma_view_facts();
            lemma_remove_dependency_keeps_acyclic(g0, predecessor_id@, successor_id@);
        }
        let pi = self.find_node(predecessor_id);
        let si = self.find_node(successor_id);
        match pi {
            Some(i) => {
                let pos = first_dependency_to(&self.dependencies[i], successor_id);
                match pos {
                    Some(k) => {
                        let ghost before = self.dependencies@[i as int]@;
                        let _ = self.dependencies[i].remove(k);
                        proof {
                            lemma_remove_first_to(before.map_values(|d: AdvancedDependency| d@), successor_id@, k as int);
                            assert(self.dependencies@[i as int]@.map_values(|d: AdvancedDependency| d@)
                                =~= before.map_values(|d: AdvancedDependency| d@).remove(k as int));
                        }
                    },
                    None => {
                        proof {
                            lemma_remove_first_to_absent(g0.deps[i as int], successor_id@);
                        }
                    },
                }
                let kept = retain_other_than(&self.nodes[i].successors, successor_id);
                self.nodes[i].successors = kept;
            },
            None => {},
        }
        match si {
            Some(j) => {
                let kept = retain_other_than(&self.nodes[j].predecessors, predecessor_id);
                self.nodes[j].predecessors = kept;
            },
            None => {},
        }
        proof {
            self.lemma_view_facts();
            let g1 = self@;
            let gr = g0.removed(predecessor_id@, successor_id@);
            assert(g1.deps =~= gr.deps);
            assert(g1.nodes =~= gr.nodes);
            assert forall|i: int| 0 <= i < g1.nodes.len() implies #[trigger] g1.nodes[i].id == g0.nodes[i].id by {}
            assert forall|i2: int, k: int|
                #![trigger g1.deps[i2][k]]
                0 <= i2 < g1.nodes.len() && 0 <= k < g1.deps[i2].len() implies {
                    &&& g1.deps[i2][k].predecessor_id == g1.nodes[i2].id
                    &&& g1.has_node(g1.deps[i2][k].successor_id)
                    &&& g1.deps[i2][k].successor_id != g1.nodes[i2].id
                } by {
                lemma_entry_origin(g0, g1, predecessor_id@, successor_id@, i2, k);
                let s = g1.deps[i2][k].successor_id;
                let j = choose|j: int| 0 <= j < g0.nodes.len() && #[trigger] g0.nodes[j].id == s;
                assert(g1.nodes[j].id == s);
            }
            assert forall|i2: int, k1: int, k2: int|
                #![trigger g1.deps[i2][k1], g1.deps[i2][k2]]
                0 <= i2 < g1.nodes.len() && 0 <= k1 < g1.deps[i2].len() && 0 <= k2 < g1.deps[i2].len()
                    && k1 != k2 implies g1.deps[i2][k1].successor_id != g1.deps[i2][k2].successor_id by {
                lemma_entries_distinct(g0, g1, predecessor_id@, successor_id@, i2, k1, k2);
            }
            assert forall|i: int| 0 <= i < self.nodes@.len() implies {
                &&& (#[trigger] self.nodes@[i]).start_date matches Some(s) ==> s.wf()
                &&& self.nodes@[i].end_date matches Some(e) ==> e.wf()
            } by {
                assert(g1.nodes[i].start_date == g0.nodes[i].start_date);
                assert(g1.nodes[i].end_date == g0.nodes[i].end_date);
            }
        }
        Ok(())
    }

    /// The dependencies of which the task is the predecessor.
    pub fn get_dependencies(&self, task_id: &str) -> (r: Vec<&AdvancedDependency>)
        requires
            self.wf(),
        ensures
            r@.map_values(|d: &AdvancedDependency| d@) == self@.dependencies_of(task_id@),
    {
        proof { self.lemma_view_facts(); }
        let mut r: Vec<&AdvancedDependency> = Vec::new();
        match self.find_node(task_id) {
            None => {
                assert(r@.map_values(|d: &AdvancedDependency| d@) =~= Seq::<DependencyView>::empty());
            },
            Some(i) => {
                let deps = &self.dependencies[i];
                let mut k: usize = 0;
                while k < deps.len()
                    invariant
                        0 <= k <= deps.len(),
                        r@.map_values(|d: &AdvancedDependency| d@) =~= deps@.take(k as int).map_values(|d: AdvancedDependency| d@),
                    decreases deps.len() - k,
                {
                    let ghost r0 = r@;
                    r.push(&deps[k]);
                    proof {
                        assert(r@.map_values(|d: &AdvancedDependency| d@) =~= r0.map_values(|d: &AdvancedDependency| d@).push(deps@[k as int]@));
                        assert(deps@.take(k + 1).map_values(|d: AdvancedDependency| d@) =~= deps@.take(k as int).map_values(|d: AdvancedDependency| d@).push(deps@[k as int]@));
                    }
                    k = k + 1;
                }
                assert(deps@.take(deps.len() as int) =~= deps@);
            },
        }
        r
    }

    /// The dependencies whose successor is the task.
    pub fn get_dependents(&self, task_id: &str) -> (r: Vec<&AdvancedDependency>)
        requires
            self.wf(),
        ensures
            r@.map_values(|d: &AdvancedDependency| d@) == self@.dependents_of(task_id@),
    {
        proof { self.lemma_view_facts(); }
        let ghost g = self@;
        let mut r: Vec<&AdvancedDependency> = Vec::new();
        let mut i: usize = 0;
        while i < self.dependencies.len()
            invariant
                g == self@,
                self.dependencies@.len() == g.deps.len(),
                0 <= i <= self.dependencies.len(),
                r@.map_values(|d: &AdvancedDependency| d@) =~= g.dependents_upto(task_id@, i as int),
            decreases self.dependencies.len() - i,
        {
            let deps = &self.dependencies[i];
            let ghost before = r@.map_values(|d: &AdvancedDependency| d@);
            let ghost list = g.deps[i as int];
            proof { self.lemma_view_facts(); }
            let mut k: usize = 0;
            while k < deps.len()
                invariant
                    g == self@,
                    deps@.map_values(|d: AdvancedDependency| d@) == list,
                    0 <= k <= deps.len(),
                    r@.map_values(|d: &AdvancedDependency| d@) =~= before + list.take(k as int).filter(|d: DependencyView| d.successor_id == task_id@),
                decreases deps.len() - k,
            {
                proof {
                    assert(list.take(k + 1).drop_last() =~= list.take(k as int));
                    assert(list.take(k + 1).last() == deps@[k as int]@);
                    lemma_filter_push_last(list.take(k + 1), task_id@);
                }
                let ghost r0 = r@;
                if str_eq(deps[k].successor_id.as_str(), task_id) {
                    r.push(&deps[k]);
                    proof {
                        assert(r@.map_values(|d: &AdvancedDependency| d@) =~= r0.map_values(|d: &AdvancedDependency| d@).push(deps@[k as int]@));
                        assert(list[k as int] == deps@[k as int]@);
                    }
                } else {
                    proof { assert(list[k as int] == deps@[k as int]@); }
                }
                k = k + 1;
            }
            proof {
                assert(deps@.len() == list.len());
                assert(list.take(list.len() as int) =~= list);
            }
            i = i + 1;
        }
        r
    }

    /// The identifiers of the tasks that have no predecessors.
    pub fn calculate_critical_path(&self) -> (r: Vec<String>)
        requires
            self.wf(),
        ensures
            views(r@) == self@.roots_upto(self@.nodes.len() as int),
    {
        proof { self.lemma_view_facts(); }
        let ghost g = self@;
        let mut r: Vec<String> = Vec::new();
        let mut i: usize = 0;
        while i < self.nodes.len()
            invariant
                g == self@,
                g.nodes.len() == self.nodes@.len(),
                0 <= i <= self.nodes.len(),
                views(r@) =~= g.roots_upto(i as int),
            decreases self.nodes.len() - i,
        {
            proof { self.lemma_view_facts(); }
            if self.nodes[i].predecessors.len() == 0 {
                r.push(self.nodes[i].id.clone());
                assert(views(r@) =~= g.roots_upto(i as int).push(g.nodes[i as int].id));
            }
            i = i + 1;
        }
        r
    }

    /// Checks that every dependency refers to tasks of the graph and that no task is
    /// its own predecessor.
    pub fn validate(&self) -> (r: Result<(), DomainError>)
        requires
            self.wf(),
        ensures
            r is Ok,
    {
        proof { self.lemma_view_facts(); }
        let mut i: usize = 0;
        while i < self.dependencies.len()
            invariant
                self.wf(),
                0 <= i <= self.dependencies.len(),
            decreases self.dependencies.len() - i,
        {
            let deps = &self.dependencies[i];
            let mut k: usize = 0;
            while k < deps.len()
                invariant
                    self.wf(),
                    i < self.dependencies.len(),
                    deps@ == self.dependencies@[i as int]@,
                    0 <= k <= deps.len(),
                decreases deps.len() - k,
            {
                proof {
                    self.lemma_view_facts();
                    let d = self@.deps[i as int][k as int];
                    lemma_index_of(self@, i as int);
                }
                if !self.contains_task(deps[k].predecessor_id.as_str()) {
                    return Err(DomainError::validation("dependency", "Dependency references non-existent predecessor"));
                }
                if !self.contains_task(deps[k].successor_id.as_str()) {
                    return Err(DomainError::validation("dependency", "Dependency references non-existent successor"));
                }
                k = k + 1;
            }
            i = i + 1;
        }
        let mut j: usize = 0;
        while j < self.nodes.len()
            invariant
                self.wf(),
                0 <= j <= self.nodes.len(),
            decreases self.nodes.len() - j,
        {
            if self.is_predecessor(self.nodes[j].id.as_str(), self.nodes[j].id.as_str()) {
                return Err(DomainError::validation("dependency", "Circular dependency detected"));
            }
            j = j + 1;
        }
        Ok(())
    }
}

/// The position of the first dependency to `s` in a list.
fn first_dependency_to(list: &Vec<AdvancedDependency>, s: &str) -> (r: Option<usize>)
    ensures
        match r {
            Some(k) => k < list@.len() && list@[k as int].successor_id@ == s@
                && forall|j: int| 0 <= j < k ==> list@[j].successor_id@ != s@,
            None => forall|j: int| 0 <= j < list@.len() ==> list@[j].successor_id@ != s@,
        },
{
    let mut k: usize = 0;
    while k < list.len()
        invariant
            0 <= k <= list.len(),
            forall|j: int| 0 <= j < k ==> list@[j].successor_id@ != s@,
        decreases list.len() - k,
    {
        if str_eq(list[k].successor_id.as_str(), s) {
            return Some(k);
        }
        k = k + 1;
    }
    None
}

/// Removing the first dependency to `s` removes the one at its first position.
pub proof fn lemma_remove_first_to(list: Seq<DependencyView>, s: Seq<char>, k: int)
    requires
        0 <= k < list.len(),
        list[k].successor_id == s,
        forall|j: int| 0 <= j < k ==> list[j].successor_id != s,
    ensures
        remove_first_to(list, s) == list.remove(k),
    decreases k,
{
    if k == 0 {
        assert(list.skip(1) =~= list.remove(0));
    } else {
        assert forall|j: int| 0 <= j < k - 1 implies list.skip(1)[j].successor_id != s by {
            assert(list.skip(1)[j] == list[j + 1]);
        }
        lemma_remove_first_to(list.skip(1), s, k - 1);
        assert(seq![list[0]] + list.skip(1).remove(k - 1) =~= list.remove(k));
    }
}

/// Removing the first dependency to `s` from a list without one leaves the list.
pub proof fn lemma_remove_first_to_absent(list: Seq<DependencyView>, s: Seq<char>)
    requires
        forall|j: int| 0 <= j < list.len() ==> list[j].successor_id != s,
    ensures
        remove_first_to(list, s) == list,
    decreases list.len(),
{
    if list.len() > 0 {
        assert forall|j: int| 0 <= j < list.skip(1).len() implies list.skip(1)[j].successor_id != s by {
            assert(list.skip(1)[j] == list[j + 1]);
        }
        lemma_remove_first_to_absent(list.skip(1), s);
        assert(seq![list[0]] + list.skip(1) =~= list);
    }
}

/// The position in `list` of the `k`-th dependency of the list without its first
/// dependency to `s`.
pub open spec fn removal_origin(list: Seq<DependencyView>, s: Seq<char>, k: int) -> int
    decreases list.len(),
{
    if list.len() == 0 {
        0
    } else if list[0].successor_id == s {
        k + 1
    } else if k == 0 {
        0
    } else {
        removal_origin(list.skip(1), s, k - 1) + 1
    }
}

/// Every dependency of a list without its first dependency to `s` was in the list,
/// and the positions keep their order.
pub proof fn lemma_remove_first_to_entries(list: Seq<DependencyView>, s: Seq<char>, k: int)
    requires
        0 <= k < remove_first_to(list, s).len(),
    ensures
        0 <= removal_origin(list, s, k) < list.len(),
        remove_first_to(list, s)[k] == list[removal_origin(list, s, k)],
        removal_origin(list, s, k) == k || removal_origin(list, s, k) == k + 1,
        forall|k2: int| 0 <= k2 < k ==> removal_origin(list, s, k2) < removal_origin(list, s, k),
    decreases list.len(),
{
    if list.len() > 0 && list[0].successor_id != s && k > 0 {
        lemma_remove_first_to_entries(list.skip(1), s, k - 1);
        assert forall|k2: int| 0 <= k2 < k implies removal_origin(list, s, k2) < removal_origin(list, s, k) by {
            if k2 > 0 {
                lemma_remove_first_to_entries(list.skip(1), s, k2 - 1);
            }
        }
    } else if list.len() > 0 && list[0].successor_id == s {
        assert(remove_first_to(list, s)[k] == list.skip(1)[k]);
    }
}

/// The length of a list without its first dependency to `s`.
pub proof fn lemma_remove_first_to_len(list: Seq<DependencyView>, s: Seq<char>)
    ensures
        remove_first_to(list, s).len() <= list.len(),
    decreases list.len(),
{
    if list.len() > 0 && list[0].successor_id != s {
        lemma_remove_first_to_len(list.skip(1), s);
    }
}

/// Each dependency of the graph after a removal was in the graph before, filed under
/// the same task.
proof fn lemma_entry_origin(g0: GraphModel, g1: GraphModel, p: Seq<char>, s: Seq<char>, i: int, k: int)
    requires
        g0.wf(),
        g1 == g0.removed(p, s),
        0 <= i < g1.nodes.len(),
        0 <= k < g1.deps[i].len(),
    ensures
        exists|k0: int| 0 <= k0 < g0.deps[i].len() && g1.deps[i][k] == #[trigger] g0.deps[i][k0],
        g1.nodes.len() == g0.nodes.len(),
        forall|j: int| 0 <= j < g1.nodes.len() ==> #[trigger] g1.nodes[j].id == g0.nodes[j].id,
{
    if g0.has_node(p) && i == g0.index_of(p) {
        lemma_remove_first_to_entries(g0.deps[i], s, k);
        let k0 = removal_origin(g0.deps[i], s, k);
        assert(g1.deps[i][k] == g0.deps[i][k0]);
    } else {
        assert(g1.deps[i][k] == g0.deps[i][k]);
    }
}

/// Removal keeps the successors of each task distinct.
proof fn lemma_entries_distinct(g0: GraphModel, g1: GraphModel, p: Seq<char>, s: Seq<char>, i: int, k1: int, k2: int)
    requires
        g0.wf(),
        g1 == g0.removed(p, s),
        0 <= i < g1.nodes.len(),
        0 <= k1 < g1.deps[i].len(),
        0 <= k2 < g1.deps[i].len(),
        k1 != k2,
    ensures
        g1.deps[i][k1].successor_id != g1.deps[i][k2].successor_id,
{
    if g0.has_node(p) && i == g0.index_of(p) {
        lemma_remove_first_to_entries(g0.deps[i], s, k1);
        lemma_remove_first_to_entries(g0.deps[i], s, k2);
        let a = removal_origin(g0.deps[i], s, k1);
        let b = removal_origin(g0.deps[i], s, k2);
        assert(a != b);
        assert(g0.deps[i][a] == g1.deps[i][k1]);
        assert(g0.deps[i][b] == g1.deps[i][k2]);
    } else {
        assert(g1.deps[i][k1] == g0.deps[i][k1]);
        assert(g1.deps[i][k2] == g0.deps[i][k2]);
    }
}

/// Filtering a list that grows by one at its end.
proof fn lemma_filter_push_last(list: Seq<DependencyView>, a: Seq<char>)
    requires
        list.len() > 0,
    ensures
        list.filter(|d: DependencyView| d.successor_id == a) ==
            if list.last().successor_id == a {
                list.drop_last().filter(|d: DependencyView| d.successor_id == a).push(list.last())
            } else {
                list.drop_last().filter(|d: DependencyView| d.successor_id == a)
            },
{
    reveal(Seq::filter);
}

// ----------------------------------------------------------------------------
// Laws of the graph
// ----------------------------------------------------------------------------

/// The dependencies of the graph after adding one are those before and the new one.
pub proof fn lemma_added_edge(g: GraphModel, d: DependencyView, a: Seq<char>, b: Seq<char>)
    requires
        g.wf(),
        g.add_dependency_error(d) is None,
    ensures
        g.added(d).edge(a, b) <==> (g.edge(a, b) || (a == d.predecessor_id && b == d.successor_id)),
{
    let g1 = g.added(d);
    let pi = g.index_of(d.predecessor_id);
    assert(g.nodes[pi].id == d.predecessor_id);
    assert forall|i: int| 0 <= i < g1.nodes.len() implies #[trigger] g1.nodes[i].id == g.nodes[i].id by {}
    if g1.edge(a, b) {
        let (i, k) = choose|i: int, k: int|
            #![trigger g1.deps[i][k]]
            0 <= i < g1.nodes.len() && 0 <= k < g1.deps[i].len() && g1.nodes[i].id == a
                && g1.deps[i][k].successor_id == b;
        if !(i == pi && k == g.deps[pi].len()) {
            assert(g1.deps[i][k] == g.deps[i][k]);
            assert(g.edge(a, b));
        }
    }
    if g.edge(a, b) {
        let (i, k) = choose|i: int, k: int|
            #![trigger g.deps[i][k]]
            0 <= i < g.nodes.len() && 0 <= k < g.deps[i].len() && g.nodes[i].id == a
                && g.deps[i][k].successor_id == b;
        assert(g1.deps[i][k] == g.deps[i][k]);
        assert(g1.edge(a, b));
    }
    if a == d.predecessor_id && b == d.successor_id {
        let k = g.deps[pi].len() as int;
        assert(g1.deps[pi][k] == d);
        assert(g1.edge(a, b));
    }
}

/// A chain of the graph after adding a dependency either was already a chain, or
/// starts with a chain of the old graph that reaches the new dependency's predecessor.
proof fn lemma_added_path_prefix(g: GraphModel, d: DependencyView, a: Seq<char>, b: Seq<char>, n: nat)
    requires
        g.wf(),
        g.add_dependency_error(d) is None,
        g.added(d).path(a, b, n),
    ensures
        g.path(a, b, n) || g.reaches(a, d.predecessor_id),
    decreases n,
{
    let g1 = g.added(d);
    if n > 0 {
        let c = choose|c: Seq<char>| #[trigger] g1.edge(a, c) && g1.path(c, b, (n - 1) as nat);
        lemma_added_edge(g, d, a, c);
        if a == d.predecessor_id && c == d.successor_id {
            assert(g.path(a, a, 0));
        } else {
            lemma_added_path_prefix(g, d, c, b, (n - 1) as nat);
            if g.path(c, b, (n - 1) as nat) {
                assert(g.edge(a, c) && g.path(c, b, (n - 1) as nat));
            } else {
                let m = choose|m: nat| g.path(c, d.predecessor_id, m);
                assert(g.edge(a, c) && g.path(c, d.predecessor_id, m));
                assert(g.path(a, d.predecessor_id, m + 1));
            }
        }
    }
}

/// A chain of the graph after adding a dependency either was already a chain, or
/// ends with a chain of the old graph that starts at the new dependency's successor.
proof fn lemma_added_path_suffix(g: GraphModel, d: DependencyView, a: Seq<char>, b: Seq<char>, n: nat)
    requires
        g.wf(),
        g.add_dependency_error(d) is None,
        g.added(d).path(a, b, n),
    ensures
        g.path(a, b, n) || g.reaches(d.successor_id, b),
    decreases n,
{
    let g1 = g.added(d);
    if n > 0 {
        let c = choose|c: Seq<char>| #[trigger] g1.edge(a, c) && g1.path(c, b, (n - 1) as nat);
        lemma_added_edge(g, d, a, c);
        lemma_added_path_suffix(g, d, c, b, (n - 1) as nat);
        if g.path(c, b, (n - 1) as nat) {
            if g.edge(a, c) {
                assert(g.edge(a, c) && g.path(c, b, (n - 1) as nat));
            } else {
                assert(c == d.successor_id);
            }
        }
    }
}

/// Law: adding a dependency that passes its checks keeps the graph free of cycles.
pub proof fn lemma_add_dependency_keeps_acyclic(g: GraphModel, d: DependencyView)
    requires
        g.wf(),
        g.acyclic(),
        g.add_dependency_error(d) is None,
    ensures
        g.added(d).acyclic(),
{
    let g1 = g.added(d);
    assert forall|a: Seq<char>, n: nat| n > 0 implies !#[trigger] g1.path(a, a, n) by {
        if g1.path(a, a, n) {
            lemma_added_path_prefix(g, d, a, a, n);
            lemma_added_path_suffix(g, d, a, a, n);
            if !g.path(a, a, n) {
                let m1 = choose|m: nat| g.path(a, d.predecessor_id, m);
                let m2 = choose|m: nat| g.path(d.successor_id, a, m);
                lemma_path_concat(g, d.successor_id, a, d.predecessor_id, m2, m1);
                assert(g.reaches(d.successor_id, d.predecessor_id));
            }
        }
    }
}

/// Law: after a dependency is added, the graph holds it.
pub proof fn lemma_added_has_dependency(g: GraphModel, d: DependencyView)
    requires
        g.wf(),
        g.add_dependency_error(d) is None,
    ensures
        g.added(d).edge(d.predecessor_id, d.successor_id),
        g.added(d).wf(),
{
    lemma_added_edge(g, d, d.predecessor_id, d.successor_id);
    let g1 = g.added(d);
    let pi = g.index_of(d.predecessor_id);
    let si = g.index_of(d.successor_id);
    assert(g.nodes[pi].id == d.predecessor_id);
    assert(g.nodes[si].id == d.successor_id);
    assert forall|i: int| 0 <= i < g1.nodes.len() implies #[trigger] g1.nodes[i].id == g.nodes[i].id by {}
    assert forall|i2: int, k: int|
        #![trigger g1.deps[i2][k]]
        0 <= i2 < g1.nodes.len() && 0 <= k < g1.deps[i2].len() implies {
            &&& g1.deps[i2][k].predecessor_id == g1.nodes[i2].id
            &&& g1.has_node(g1.deps[i2][k].successor_id)
            &&& g1.deps[i2][k].successor_id != g1.nodes[i2].id
        } by {
        let s = g1.deps[i2][k].successor_id;
        if i2 == pi && k == g.deps[pi].len() {
            assert(g1.nodes[si].id == s);
        } else {
            assert(g1.deps[i2][k] == g.deps[i2][k]);
            let j = choose|j: int| 0 <= j < g.nodes.len() && #[trigger] g.nodes[j].id == s;
            assert(g1.nodes[j].id == s);
        }
    }
    assert forall|i2: int, k1: int, k2: int|
        #![trigger g1.deps[i2][k1], g1.deps[i2][k2]]
        0 <= i2 < g1.nodes.len() && 0 <= k1 < g1.deps[i2].len() && 0 <= k2 < g1.deps[i2].len()
            && k1 != k2 implies g1.deps[i2][k1].successor_id != g1.deps[i2][k2].successor_id by {
        let last = g.deps[pi].len() as int;
        if i2 == pi && (k1 == last || k2 == last) {
            let other = if k1 == last { k2 } else { k1 };
            assert(g1.deps[i2][other] == g.deps[i2][other]);
            if g.deps[i2][other].successor_id == d.successor_id {
                assert(g.edge(d.predecessor_id, d.successor_id));
            }
        } else {
            assert(g1.deps[i2][k1] == g.deps[i2][k1]);
            assert(g1.deps[i2][k2] == g.deps[i2][k2]);
        }
    }
}

/// Removing from a list whose successors are distinct leaves no dependency to `s`.
proof fn lemma_remove_first_to_distinct(list: Seq<DependencyView>, s: Seq<char>)
    requires
        forall|k1: int, k2: int|
            0 <= k1 < list.len() && 0 <= k2 < list.len() && k1 != k2
                ==> list[k1].successor_id != list[k2].successor_id,
    ensures
        forall|k: int| 0 <= k < remove_first_to(list, s).len() ==> (#[trigger] remove_first_to(list, s)[k]).successor_id != s,
    decreases list.len(),
{
    if list.len() > 0 {
        if list[0].successor_id == s {
            assert forall|k: int| 0 <= k < remove_first_to(list, s).len() implies (#[trigger] remove_first_to(list, s)[k]).successor_id != s by {
                assert(remove_first_to(list, s)[k] == list[k + 1]);
            }
        } else {
            let rest = list.skip(1);
            assert forall|k1: int, k2: int|
                0 <= k1 < rest.len() && 0 <= k2 < rest.len() && k1 != k2 implies rest[k1].successor_id != rest[k2].successor_id by {
                assert(rest[k1] == list[k1 + 1]);
                assert(rest[k2] == list[k2 + 1]);
            }
            lemma_remove_first_to_distinct(rest, s);
            assert forall|k: int| 0 <= k < remove_first_to(list, s).len() implies (#[trigger] remove_first_to(list, s)[k]).successor_id != s by {
                if k > 0 {
                    assert(remove_first_to(list, s)[k] == remove_first_to(rest, s)[k - 1]);
                }
            }
        }
    }
}

/// Law: after the dependency from `p` to `s` is removed, the graph holds none.
pub proof fn lemma_removed_has_no_dependency(g: GraphModel, p: Seq<char>, s: Seq<char>)
    requires
        g.wf(),
    ensures
        !g.removed(p, s).edge(p, s),
{
    let g1 = g.removed(p, s);
    if g1.edge(p, s) {
        let (i, k) = choose|i: int, k: int|
            #![trigger g1.deps[i][k]]
            0 <= i < g1.nodes.len() && 0 <= k < g1.deps[i].len() && g1.nodes[i].id == p
                && g1.deps[i][k].successor_id == s;
        assert(g1.nodes[i].id == g.nodes[i].id);
        lemma_index_of(g, i);
        let list = g.deps[i];
        assert forall|k1: int, k2: int|
            0 <= k1 < list.len() && 0 <= k2 < list.len() && k1 != k2 implies list[k1].successor_id != list[k2].successor_id by {
            assert(g.deps[i][k1] == list[k1]);
            assert(g.deps[i][k2] == list[k2]);
        }
        lemma_remove_first_to_distinct(list, s);
        assert(g1.deps[i] == remove_first_to(list, s));
    }
}

proof fn lemma_same_shape_edge(g1: GraphModel, g2: GraphModel, a: Seq<char>, b: Seq<char>)
    requires
        same_shape(g1, g2),
        g1.deps.len() == g1.nodes.len(),
    ensures
        g1.edge(a, b) == g2.edge(a, b),
{
    if g1.edge(a, b) {
        let (i, k) = choose|i: int, k: int|
            #![trigger g1.deps[i][k]]
            0 <= i < g1.nodes.len() && 0 <= k < g1.deps[i].len() && g1.nodes[i].id == a
                && g1.deps[i][k].successor_id == b;
        assert(g2.deps[i][k].successor_id == b);
        assert(g2.nodes[i].id == a);
    }
    if g2.edge(a, b) {
        let (i, k) = choose|i: int, k: int|
            #![trigger g2.deps[i][k]]
            0 <= i < g2.nodes.len() && 0 <= k < g2.deps[i].len() && g2.nodes[i].id == a
                && g2.deps[i][k].successor_id == b;
        assert(g1.nodes[i].id == a);
        assert(g1.deps[i].len() == g2.deps[i].len());
        assert(g1.deps[i][k].successor_id == b);
    }
}

proof fn lemma_same_shape_path(g1: GraphModel, g2: GraphModel, a: Seq<char>, b: Seq<char>, n: nat)
    requires
        same_shape(g1, g2),
        g1.deps.len() == g1.nodes.len(),
    ensures
        g1.path(a, b, n) == g2.path(a, b, n),
    decreases n,
{
    if n > 0 {
        if g1.path(a, b, n) {
            let c = choose|c: Seq<char>| #[trigger] g1.edge(a, c) && g1.path(c, b, (n - 1) as nat);
            lemma_same_shape_edge(g1, g2, a, c);
            lemma_same_shape_path(g1, g2, c, b, (n - 1) as nat);
            assert(g2.edge(a, c) && g2.path(c, b, (n - 1) as nat));
        }
        if g2.path(a, b, n) {
            let c = choose|c: Seq<char>| #[trigger] g2.edge(a, c) && g2.path(c, b, (n - 1) as nat);
            lemma_same_shape_edge(g1, g2, a, c);
            lemma_same_shape_path(g1, g2, c, b, (n - 1) as nat);
            assert(g1.edge(a, c) && g1.path(c, b, (n - 1) as nat));
        }
    }
}

/// Graphs of the same shape share their invariant, their dependencies and their chains.
pub proof fn lemma_same_shape(g1: GraphModel, g2: GraphModel)
    requires
        same_shape(g1, g2),
        g1.wf(),
        g1.acyclic(),
    ensures
        g2.wf(),
        g2.acyclic(),
        forall|a: Seq<char>, b: Seq<char>| #[trigger] g2.edge(a, b) == g1.edge(a, b),
        forall|a: Seq<char>, b: Seq<char>| #[trigger] g2.reaches(a, b) == g1.reaches(a, b),
        forall|a: Seq<char>| #[trigger] g2.has_node(a) == g1.has_node(a),
{
    assert forall|a: Seq<char>| #[trigger] g2.has_node(a) == g1.has_node(a) by {
        if g1.has_node(a) {
            let i = choose|i: int| 0 <= i < g1.nodes.len() && #[trigger] g1.nodes[i].id == a;
            assert(g2.nodes[i].id == a);
        }
        if g2.has_node(a) {
            let i = choose|i: int| 0 <= i < g2.nodes.len() && #[trigger] g2.nodes[i].id == a;
            assert(g1.nodes[i].id == a);
        }
    }
    assert forall|a: Seq<char>, b: Seq<char>| #[trigger] g2.edge(a, b) == g1.edge(a, b) by {
        lemma_same_shape_edge(g1, g2, a, b);
    }
    assert forall|a: Seq<char>, b: Seq<char>| #[trigger] g2.reaches(a, b) == g1.reaches(a, b) by {
        if g1.reaches(a, b) {
            let n = choose|n: nat| g1.path(a, b, n);
            lemma_same_shape_path(g1, g2, a, b, n);
        }
        if g2.reaches(a, b) {
            let n = choose|n: nat| g2.path(a, b, n);
            lemma_same_shape_path(g1, g2, a, b, n);
        }
    }
    assert forall|a: Seq<char>, n: nat| n > 0 implies !#[trigger] g2.path(a, a, n) by {
        lemma_same_shape_path(g1, g2, a, a, n);
    }
    assert forall|i: int, j: int|
        0 <= i < g2.nodes.len() && 0 <= j < g2.nodes.len() && i != j implies #[trigger] g2.nodes[i].id
            != #[trigger] g2.nodes[j].id by {
        assert(g1.nodes[i].id == g2.nodes[i].id);
        assert(g1.nodes[j].id == g2.nodes[j].id);
    }
    assert forall|i: int, k: int|
        #![trigger g2.deps[i][k]]
        0 <= i < g2.nodes.len() && 0 <= k < g2.deps[i].len() implies {
            &&& g2.deps[i][k].predecessor_id == g2.nodes[i].id
            &&& g2.has_node(g2.deps[i][k].successor_id)
            &&& g2.deps[i][k].successor_id != g2.nodes[i].id
        } by {
        assert(g1.deps[i][k].successor_id == g2.deps[i][k].successor_id);
        assert(g1.nodes[i].id == g2.nodes[i].id);
        assert(g1.has_node(g1.deps[i][k].successor_id));
    }
    assert forall|i: int, k1: int, k2: int|
        #![trigger g2.deps[i][k1], g2.deps[i][k2]]
        0 <= i < g2.nodes.len() && 0 <= k1 < g2.deps[i].len() && 0 <= k2 < g2.deps[i].len() && k1 != k2
            implies g2.deps[i][k1].successor_id != g2.deps[i][k2].successor_id by {
        assert(g1.deps[i][k1].successor_id == g2.deps[i][k1].successor_id);
        assert(g1.deps[i][k2].successor_id == g2.deps[i][k2].successor_id);
    }
}

/// The dependencies of the graph after a removal are among those before.
proof fn lemma_removed_edge(g: GraphModel, p: Seq<char>, s: Seq<char>, a: Seq<char>, b: Seq<char>)
    requires
        g.wf(),
        g.removed(p, s).edge(a, b),
    ensures
        g.edge(a, b),
{
    let g1 = g.removed(p, s);
    let (i, k) = choose|i: int, k: int|
        #![trigger g1.deps[i][k]]
        0 <= i < g1.nodes.len() && 0 <= k < g1.deps[i].len() && g1.nodes[i].id == a
            && g1.deps[i][k].successor_id == b;
    lemma_entry_origin(g, g1, p, s, i, k);
    let k0 = choose|k0: int| 0 <= k0 < g.deps[i].len() && g1.deps[i][k] == #[trigger] g.deps[i][k0];
    assert(g.nodes[i].id == a);
    assert(g.deps[i][k0].successor_id == b);
}

proof fn lemma_removed_path(g: GraphModel, p: Seq<char>, s: Seq<char>, a: Seq<char>, b: Seq<char>, n: nat)
    requires
        g.wf(),
        g.removed(p, s).path(a, b, n),
    ensures
        g.path(a, b, n),
    decreases n,
{
    let g1 = g.removed(p, s);
    if n > 0 {
        let c = choose|c: Seq<char>| #[trigger] g1.edge(a, c) && g1.path(c, b, (n - 1) as nat);
        lemma_removed_edge(g, p, s, a, c);
        lemma_removed_path(g, p, s, c, b, (n - 1) as nat);
        assert(g.edge(a, c) && g.path(c, b, (n - 1) as nat));
    }
}

/// Law: removing a dependency keeps the graph free of cycles.
pub proof fn lemma_remove_dependency_keeps_acyclic(g: GraphModel, p: Seq<char>, s: Seq<char>)
    requires
        g.wf(),
        g.acyclic(),
    ensures
        g.removed(p, s).acyclic(),
{
    let g1 = g.removed(p, s);
    assert forall|a: Seq<char>, n: nat| n > 0 implies !#[trigger] g1.path(a, a, n) by {
        if g1.path(a, a, n) {
            lemma_removed_path(g, p, s, a, a, n);
        }
    }
}

/// The dependencies of the graph after adding a task are among those before.
proof fn lemma_with_task_edge(g: GraphModel, t: TaskNodeView, a: Seq<char>, b: Seq<char>)
    requires
        g.wf(),
        g.with_task(t).edge(a, b),
    ensures
        g.edge(a, b),
{
    let g1 = g.with_task(t);
    let (i, k) = choose|i: int, k: int|
        #![trigger g1.deps[i][k]]
        0 <= i < g1.nodes.len() && 0 <= k < g1.deps[i].len() && g1.nodes[i].id == a
            && g1.deps[i][k].successor_id == b;
    if g.has_node(t.id) {
        let j = g.index_of(t.id);
        assert(i != j);
    } else {
        assert(i < g.nodes.len());
    }
    assert(g.deps[i][k] == g1.deps[i][k]);
    assert(g.nodes[i].id == a);
}

proof fn lemma_with_task_path(g: GraphModel, t: TaskNodeView, a: Seq<char>, b: Seq<char>, n: nat)
    requires
        g.wf(),
        g.with_task(t).path(a, b, n),
    ensures
        g.path(a, b, n),
    decreases n,
{
    let g1 = g.with_task(t);
    if n > 0 {
        let c = choose|c: Seq<char>| #[trigger] g1.edge(a, c) && g1.path(c, b, (n - 1) as nat);
        lemma_with_task_edge(g, t, a, c);
        lemma_with_task_path(g, t, c, b, (n - 1) as nat);
        assert(g.edge(a, c) && g.path(c, b, (n - 1) as nat));
    }
}

/// Law: adding or replacing a task keeps the graph free of cycles.
pub proof fn lemma_add_task_keeps_acyclic(g: GraphModel, t: TaskNodeView)
    requires
        g.wf(),
        g.acyclic(),
    ensures
        g.with_task(t).acyclic(),
{
    let g1 = g.with_task(t);
    assert forall|a: Seq<char>, n: nat| n > 0 implies !#[trigger] g1.path(a, a, n) by {
        if g1.path(a, a, n) {
            lemma_with_task_path(g, t, a, a, n);
        }
    }
}

/// Law: after a task is added, the graph holds a task with its identifier.
pub proof fn lemma_with_task_has_node(g: GraphModel, t: TaskNodeView)
    requires
        g.wf(),
    ensures
        g.with_task(t).has_node(t.id),
{
    let g1 = g.with_task(t);
    if g.has_node(t.id) {
        let i = g.index_of(t.id);
        assert(g1.nodes[i].id == t.id);
    } else {
        assert(g1.nodes[g.nodes.len() as int].id == t.id);
    }
}

/// Law: an empty graph has no cycle.
pub proof fn lemma_empty_acyclic(g: GraphModel)
    requires
        g.nodes.len() == 0,
    ensures
        g.acyclic(),
{
    assert forall|a: Seq<char>, n: nat| n > 0 implies !#[trigger] g.path(a, a, n) by {
        if g.path(a, a, n) {
            let c = choose|c: Seq<char>| #[trigger] g.edge(a, c) && g.path(c, a, (n - 1) as nat);
        }
    }
}

impl AdvancedDependencyGraph {
    /// The task at a position.
    pub fn node_at(&self, i: usize) -> (n: &TaskNode)
        requires
            self.wf(),
            i < self@.nodes.len(),
        ensures
            n@ == self@.nodes[i as int],
            n.start_date matches Some(s) ==> s.wf(),
            n.end_date matches Some(e) ==> e.wf(),
    {
        proof { self.lemma_view_facts(); }
        &self.nodes[i]
    }

    /// The number of dependencies filed under the task at a position.
    pub fn dependency_count_at(&self, i: usize) -> (n: usize)
        requires
            self.wf(),
            i < self@.nodes.len(),
        ensures
            n == self@.deps[i as int].len(),
    {
        proof { self.lemma_view_facts(); }
        self.dependencies[i].len()
    }

    /// The `k`-th dependency filed under the task at position `i`.
    pub fn dependency_at(&self, i: usize, k: usize) -> (d: &AdvancedDependency)
        requires
            self.wf(),
            i < self@.nodes.len(),
            k < self@.deps[i as int].len(),
        ensures
            d@ == self@.deps[i as int][k as int],
    {
        proof { self.lemma_view_facts(); }
        &self.dependencies[i][k]
    }

    /// The position of the successor of the `k`-th dependency filed under the task at `i`.
    pub fn successor_index_at(&self, i: usize, k: usize) -> (j: usize)
        requires
            self.wf(),
            i < self@.nodes.len(),
            k < self@.deps[i as int].len(),
        ensures
            j < self@.nodes.len(),
            self@.nodes[j as int].id == self@.deps[i as int][k as int].successor_id,
            j == self@.index_of(self@.deps[i as int][k as int].successor_id),
    {
        proof { self.lemma_view_facts(); }
        self.find_node(self.dependencies[i][k].successor_id.as_str()).unwrap()
    }

    /// The position of the task with this identifier, if it is in the graph.
    pub fn index_of_task(&self, id: &str) -> (r: Option<usize>)
        requires
            self.wf(),
        ensures
            r matches Some(i) ==> i < self@.nodes.len() && self@.nodes[i as int].id == id@
                && self@.index_of(id@) == i && self@.has_node(id@),
            r is None ==> !self@.has_node(id@),
    {
        self.find_node(id)
    }

    /// Sets the dates of the task with this identifier, if there is one.
    pub fn set_task_dates(&mut self, task_id: &str, start: Option<Date>, end: Option<Date>)
        requires
            old(self).wf(),
            start matches Some(d) ==> d.wf(),
            end matches Some(d) ==> d.wf(),
        ensures
            final(self).wf(),
            final(self)@ == old(self)@.with_dates(task_id@, start, end),
    {
        let ghost g0 = self@;
        proof { self.lemma_view_facts(); }
        match self.find_node(task_id) {
            Some(i) => {
                self.nodes[i].start_date = start;
                self.nodes[i].end_date = end;
                proof {
                    self.lemma_view_facts();
                    let g1 = self@;
                    assert(g1.nodes =~= g0.with_dates(task_id@, start, end).nodes);
                    assert(g1.deps =~= g0.deps);
                    assert(same_shape(g0, g1));
                    lemma_same_shape(g0, g1);
                }
            },
            None => {},
        }
    }

    /// Gives the dependency filed under `predecessor_id` that leads to `successor_id`,
    /// if there is one, a new type and a new lag where these are given.
    pub fn change_dependency(
        &mut self,
        predecessor_id: &str,
        successor_id: &str,
        new_type: Option<DependencyType>,
        new_lag: Option<LagType>,
    )
        requires
            old(self).wf(),
        ensures
            final(self).wf(),
            final(self)@ == old(self)@.with_dependency_changed(predecessor_id@, successor_id@, new_type, new_lag),
    {
        let ghost g0 = self@;
        proof { self.lemma_view_facts(); }
        match self.find_node(predecessor_id) {
            Some(i) => {
                let ghost list0 = g0.deps[i as int];
                let n = self.dependencies[i].len();
                let mut k: usize = 0;
                while k < n
                    invariant
                        0 <= k <= n,
                        i < self.dependencies@.len(),
                        self.dependencies@.len() == g0.deps.len(),
                        self.nodes@.len() == g0.nodes.len(),
                        n == list0.len(),
                        list0 == g0.deps[i as int],
                        self.dependencies@[i as int]@.len() == n,
                        forall|j: int| 0 <= j < self.nodes@.len() ==> #[trigger] self.nodes@[j]@ == g0.nodes[j],
                        forall|j: int| 0 <= j < self.nodes@.len() ==> {
                            &&& (#[trigger] self.nodes@[j]).start_date matches Some(d) ==> d.wf()
                            &&& self.nodes@[j].end_date matches Some(d) ==> d.wf()
                        },
                        forall|j: int| 0 <= j < self.dependencies@.len() && j != i ==> (#[trigger] self.dependencies@[j])@.map_values(|d: AdvancedDependency| d@) == g0.deps[j],
                        forall|m: int| 0 <= m < n ==> (#[trigger] self.dependencies@[i as int]@[m])@ == if m < k {
                            changed_dependency(list0[m], successor_id@, new_type, new_lag)
                        } else {
                            list0[m]
                        },
                    decreases n - k,
                {
                    if str_eq(self.dependencies[i][k].successor_id.as_str(), successor_id) {
                        match new_type {
                            Some(t) => { self.dependencies[i][k].dependency_type = t; },
                            None => {},
                        }
                        match new_lag {
                            Some(l) => { self.dependencies[i][k].lag = l; },
                            None => {},
                        }
                    }
                    k = k + 1;
                }
                proof {
                    self.lemma_view_facts();
                    let g1 = self@;
                    let want = g0.with_dependency_changed(predecessor_id@, successor_id@, new_type, new_lag);
                    assert(g1.nodes =~= want.nodes);
                    assert forall|j: int| 0 <= j < g1.deps.len() implies #[trigger] g1.deps[j] =~= want.deps[j] by {
                        if j == i as int {
                            assert(g1.deps[j].len() == want.deps[j].len());
                        }
                    }
                    assert(g1.deps =~= want.deps);
                    assert(same_shape(g0, g1));
                    lemma_same_shape(g0, g1);
                }
            },
            None => {},
        }
    }

    /// The invariant of the graph implies the invariant of its content.
    pub proof fn lemma_wf(&self)
        requires
            self.wf(),
        ensures
            self@.wf(),
            self@.acyclic(),
    {
    }
}

} // verus!
