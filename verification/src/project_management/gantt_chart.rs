//! Parts of the Gantt chart that do not depend on drawing: task states and their
//! colours, time scales, pagination, feature switches and statistics.

use vstd::prelude::*;
use crate::dates::{Date, MAX_DAY, month_day, year_month};
use crate::project_management::advanced_dependencies::{AdvancedDependencyGraph, DependencyType, GraphModel};
use crate::text::{decimal, find_from, str_eq, text_contains, u64_to_text};

verus! {

/// The state of a task on the chart.
#[derive(Debug, Clone, Copy, PartialEq, Eq, Hash, Structural)]
pub enum TaskStatus {
    NotStarted,
    InProgress,
    Completed,
    Delayed,
    OnHold,
}

/// The readable name of a task state.
pub open spec fn task_status_description(s: TaskStatus) -> Seq<char> {
    match s {
        TaskStatus::NotStarted => "Não Iniciada"@,
        TaskStatus::InProgress => "Em Progresso"@,
        TaskStatus::Completed => "Concluída"@,
        TaskStatus::Delayed => "Atrasada"@,
        TaskStatus::OnHold => "Em Espera"@,
    }
}

/// The CSS colour of a task state.
pub open spec fn task_status_color(s: TaskStatus) -> Seq<char> {
    match s {
        TaskStatus::NotStarted => "#e5e7eb"@,
        TaskStatus::InProgress => "#3b82f6"@,
        TaskStatus::Completed => "#10b981"@,
        TaskStatus::Delayed => "#ef4444"@,
        TaskStatus::OnHold => "#f59e0b"@,
    }
}

impl TaskStatus {
    /// The readable name of the state.
    pub fn description(&self) -> (s: &'static str)
        ensures
            s@ == task_status_description(*self),
    {
        match self {
            TaskStatus::NotStarted => "Não Iniciada",
            TaskStatus::InProgress => "Em Progresso",
            TaskStatus::Completed => "Concluída",
            TaskStatus::Delayed => "Atrasada",
            TaskStatus::OnHold => "Em Espera",
        }
    }

    /// The CSS colour of the state.
    pub fn color(&self) -> (s: &'static str)
        ensures
            s@ == task_status_color(*self),
    {
        match self {
            TaskStatus::NotStarted => "#e5e7eb",
            TaskStatus::InProgress => "#3b82f6",
            TaskStatus::Completed => "#10b981",
            TaskStatus::Delayed => "#ef4444",
            TaskStatus::OnHold => "#f59e0b",
        }
    }
}

/// The time scale of the chart.
#[derive(Debug, Clone, Copy, PartialEq, Eq, Structural)]
pub enum GanttViewType {
    Days,
    Weeks,
    Months,
    Quarters,
}

/// The readable name of a time scale.
pub open spec fn view_type_description(v: GanttViewType) -> Seq<char> {
    match v {
        GanttViewType::Days => "Dias"@,
        GanttViewType::Weeks => "Semanas"@,
        GanttViewType::Months => "Meses"@,
        GanttViewType::Quarters => "Trimestres"@,
    }
}

/// Integer division by seven that rounds toward zero.
pub open spec fn weeks_of(days: int) -> int {
    if days >= 0 { days / 7 } else { -((-days) / 7) }
}

/// The number of units of a time scale between two dates, given as day numbers and
/// as (year, month) pairs: whole days, whole weeks (rounded toward zero), calendar
/// months, or calendar quarters.
pub open spec fn units_between(v: GanttViewType, start: int, end: int, sym: (i32, u32), eym: (i32, u32)) -> int {
    match v {
        GanttViewType::Days => end - start,
        GanttViewType::Weeks => weeks_of(end - start),
        GanttViewType::Months => (eym.0 - sym.0) * 12 + (eym.1 - sym.1),
        GanttViewType::Quarters => (eym.0 - sym.0) * 4 + (eym.1 - 1) / 3 - (sym.1 - 1) / 3,
    }
}

impl GanttViewType {
    /// The readable name of the scale.
    pub fn description(&self) -> (s: &'static str)
        ensures
            s@ == view_type_description(*self),
    {
        match self {
            GanttViewType::Days => "Dias",
            GanttViewType::Weeks => "Semanas",
            GanttViewType::Months => "Meses",
            GanttViewType::Quarters => "Trimestres",
        }
    }

    /// The number of units of the scale from `start` to `end`.
    pub fn days_between(&self, start: Date, end: Date) -> (n: i64)
        requires
            start.wf(),
            end.wf(),
        ensures
            n == units_between(*self, start.day(), end.day(), year_month(start.day() as i32), year_month(end.day() as i32)),
    {
        match self {
            GanttViewType::Days => end.days_since(&start),
            GanttViewType::Weeks => {
                proof {
                    start.lemma_in_range();
                    end.lemma_in_range();
                }
                let d = end.days_since(&start);
                if d >= 0 {
                    (d as u64 / 7) as i64
                } else {
                    -(((-d) as u64 / 7) as i64)
                }
            },
            GanttViewType::Months => {
                let (sy, sm) = start.year_month();
                let (ey, em) = end.year_month();
                let months: i64 = (ey as i64 - sy as i64) * 12 + (em as i64 - sm as i64);
                months
            },
            GanttViewType::Quarters => {
                let (sy, sm) = start.year_month();
                let (ey, em) = end.year_month();
                let quarters: i64 = (ey as i64 - sy as i64) * 4 + ((em - 1) / 3) as i64 - ((sm - 1) / 3) as i64;
                quarters
            },
        }
    }
}

/// The position of a page among the pages of a task list.
#[derive(Debug, Clone, Copy, PartialEq, Eq)]
pub struct GanttPagination {
    pub current_page: usize,
    pub total_pages: usize,
    pub tasks_per_page: usize,
    pub total_tasks: usize,
    pub has_next_page: bool,
    pub has_previous_page: bool,
}

impl GanttPagination {
    /// The pagination of `total_tasks` tasks, `tasks_per_page` to a page, at `current_page`
    /// (counted from 0): the number of pages is the quotient rounded up.
    pub fn new(current_page: usize, total_tasks: usize, tasks_per_page: usize) -> (p: GanttPagination)
        requires
            tasks_per_page > 0,
            total_tasks > 0,
        ensures
            p.total_pages == (total_tasks + tasks_per_page - 1) / (tasks_per_page as int),
            p.current_page == current_page,
            p.tasks_per_page == tasks_per_page,
            p.total_tasks == total_tasks,
            p.has_next_page == (current_page < p.total_pages - 1),
            p.has_previous_page == (current_page > 0),
    {
        let q = total_tasks / tasks_per_page;
        if total_tasks % tasks_per_page != 0 {
            assert(q < usize::MAX) by (nonlinear_arith)
                requires
                    tasks_per_page > 0,
                    q == total_tasks / tasks_per_page,
                    total_tasks % tasks_per_page != 0,
                    total_tasks <= usize::MAX,
            {
                assert(total_tasks == q * tasks_per_page + total_tasks % tasks_per_page);
                assert(tasks_per_page >= 2);
                assert(q * tasks_per_page >= q * 2);
            }
        }
        let total_pages = if total_tasks % tasks_per_page == 0 { q } else { q + 1 };
        proof {
            assert(total_pages == (total_tasks + tasks_per_page - 1) / (tasks_per_page as int)) by (nonlinear_arith)
                requires
                    tasks_per_page > 0,
                    q == total_tasks / tasks_per_page,
                    total_pages == if total_tasks % tasks_per_page == 0 { q as int } else { q + 1 },
            {
                assert(total_tasks == q * tasks_per_page + total_tasks % tasks_per_page);
            }
            assert(total_pages >= 1) by (nonlinear_arith)
                requires
                    tasks_per_page > 0,
                    total_tasks > 0,
                    q == total_tasks / tasks_per_page,
                    total_pages == if total_tasks % tasks_per_page == 0 { q as int } else { q + 1 },
            {
                assert(total_tasks == q * tasks_per_page + total_tasks % tasks_per_page);
            }
        }
        GanttPagination {
            current_page,
            total_pages,
            tasks_per_page,
            total_tasks,
            has_next_page: current_page < total_pages - 1,
            has_previous_page: current_page > 0,
        }
    }

    /// The positions of the tasks of the current page: from its first task up to the
    /// end of the page or of the list, whichever comes first (end excluded).
    pub fn get_page_range(&self) -> (r: (usize, usize))
        requires
            self.current_page * self.tasks_per_page + self.tasks_per_page <= usize::MAX,
        ensures
            r.0 == self.current_page * self.tasks_per_page,
            r.1 == if r.0 + self.tasks_per_page <= self.total_tasks { r.0 + self.tasks_per_page } else { self.total_tasks as int },
            (r.0 as int, r.1 as int) == page_bounds(self.current_page as int, self.tasks_per_page as int, self.total_tasks as int),
    {
        proof {
            assert(0 <= self.current_page * self.tasks_per_page) by (nonlinear_arith);
        }
        let start = self.current_page * self.tasks_per_page;
        let stop = start + self.tasks_per_page;
        let end = if stop <= self.total_tasks { stop } else { self.total_tasks };
        (start, end)
    }

    /// Moves to the next page, where there is one.
    pub fn next_page(&mut self) -> (moved: bool)
        requires
            old(self).has_next_page ==> old(self).total_pages >= 1 && old(self).current_page < usize::MAX,
        ensures
            moved == old(self).has_next_page,
            moved ==> *final(self) == (GanttPagination {
                current_page: (old(self).current_page + 1) as usize,
                has_next_page: old(self).current_page + 1 < old(self).total_pages - 1,
                has_previous_page: true,
                ..*old(self)
            }),
            !moved ==> *final(self) == *old(self),
    {
        if self.has_next_page {
            self.current_page = self.current_page + 1;
            self.has_next_page = self.current_page < self.total_pages - 1;
            self.has_previous_page = self.current_page > 0;
            true
        } else {
            false
        }
    }

    /// Moves to the previous page, where there is one.
    pub fn previous_page(&mut self) -> (moved: bool)
        requires
            old(self).has_previous_page ==> old(self).total_pages >= 1 && old(self).current_page >= 1,
        ensures
            moved == old(self).has_previous_page,
            moved ==> *final(self) == (GanttPagination {
                current_page: (old(self).current_page - 1) as usize,
                has_next_page: old(self).current_page - 1 < old(self).total_pages - 1,
                has_previous_page: old(self).current_page - 1 > 0,
                ..*old(self)
            }),
            !moved ==> *final(self) == *old(self),
    {
        if self.has_previous_page {
            self.current_page = self.current_page - 1;
            self.has_next_page = self.current_page < self.total_pages - 1;
            self.has_previous_page = self.current_page > 0;
            true
        } else {
            false
        }
    }

    /// Moves to the page `page` (counted from 0), where there is such a page.
    pub fn go_to_page(&mut self, page: usize) -> (moved: bool)
        ensures
            moved == (page < old(self).total_pages),
            moved ==> *final(self) == (GanttPagination {
                current_page: page,
                has_next_page: page < old(self).total_pages - 1,
                has_previous_page: page > 0,
                ..*old(self)
            }),
            !moved ==> *final(self) == *old(self),
    {
        if page < self.total_pages {
            self.current_page = page;
            self.has_next_page = self.current_page < self.total_pages - 1;
            self.has_previous_page = self.current_page > 0;
            true
        } else {
            false
        }
    }
}

/// The first position and the end (excluded) of page `page` of `total` tasks,
/// `per` to a page.
pub open spec fn page_bounds(page: int, per: int, total: int) -> (int, int) {
    let start = page * per;
    (start, if start + per <= total { start + per } else { total })
}

/// The page on which position `t` lies, `per` tasks to a page.
pub open spec fn page_of(t: int, per: int) -> int {
    t / per
}

/// The number of pages of `total` tasks, `per` to a page: the quotient rounded up.
pub open spec fn page_count(total: int, per: int) -> int {
    (total + per - 1) / per
}

proof fn lemma_page_start_before_total(page: int, per: int, total: int)
    by (nonlinear_arith)
    requires
        per > 0,
        total > 0,
        0 <= page < (total + per - 1) / per,
    ensures
        page * per < total,
{
    let q = (total + per - 1) / per;
    assert(q * per <= total + per - 1);
    assert(page + 1 <= q);
    assert((page + 1) * per <= q * per);
}

proof fn lemma_page_of_position(t: int, per: int, total: int)
    by (nonlinear_arith)
    requires
        per > 0,
        0 <= t < total,
    ensures
        0 <= t / per < (total + per - 1) / per,
        (t / per) * per <= t < (t / per) * per + per,
{
    let p = t / per;
    assert(p * per + t % per == t);
    assert(0 <= t % per < per);
    assert(p * per <= t);
    assert(p >= 0);
    assert((p + 1) * per <= total + per - 1);
    assert(p + 1 <= (total + per - 1) / per) by {
        assert(((total + per - 1) / per) * per + (total + per - 1) % per == total + per - 1);
        assert(0 <= (total + per - 1) % per < per);
    }
}

proof fn lemma_pages_apart(a: int, b: int, per: int)
    by (nonlinear_arith)
    requires
        per > 0,
        0 <= a < b,
    ensures
        a * per + per <= b * per,
{
    assert((a + 1) * per <= b * per);
}

/// Law: the pages of a list of tasks split it. Every page of the `page_count` pages
/// holds at least one and at most `per` positions; two pages share no position; and
/// every position `t` of the list lies on page `t / per`.
pub proof fn lemma_pages_split_the_list(per: int, total: int)
    requires
        per > 0,
        total > 0,
    ensures
        forall|page: int| 0 <= page < page_count(total, per) ==> {
            let r = #[trigger] page_bounds(page, per, total);
            &&& 0 <= r.0 < r.1 <= total
            &&& r.1 - r.0 <= per
        },
        forall|a: int, b: int| 0 <= a < b < page_count(total, per)
            ==> (#[trigger] page_bounds(a, per, total)).1 <= (#[trigger] page_bounds(b, per, total)).0,
        forall|t: int| 0 <= t < total ==> {
            let page = #[trigger] page_of(t, per);
            &&& 0 <= page < page_count(total, per)
            &&& page_bounds(page, per, total).0 <= t < page_bounds(page, per, total).1
        },
{
    assert forall|page: int| 0 <= page < page_count(total, per) implies {
        let r = #[trigger] page_bounds(page, per, total);
        &&& 0 <= r.0 < r.1 <= total
        &&& r.1 - r.0 <= per
    } by {
        lemma_page_start_before_total(page, per, total);
        assert(0 <= page * per) by (nonlinear_arith)
            requires
                page >= 0,
                per > 0,
        ;
    }
    assert forall|a: int, b: int| 0 <= a < b < page_count(total, per)
        implies (#[trigger] page_bounds(a, per, total)).1 <= (#[trigger] page_bounds(b, per, total)).0 by {
        lemma_pages_apart(a, b, per);
    }
    assert forall|t: int| 0 <= t < total implies {
        let page = #[trigger] page_of(t, per);
        &&& 0 <= page < page_count(total, per)
        &&& page_bounds(page, per, total).0 <= t < page_bounds(page, per, total).1
    } by {
        lemma_page_of_position(t, per, total);
    }
}

/// Which advanced features of the chart are switched on.
#[derive(Debug, Clone, Copy, PartialEq, Eq)]
pub struct GanttAdvancedFeatures {
    pub enable_zoom: bool,
    pub enable_pan: bool,
    pub enable_export: bool,
    pub enable_print: bool,
    pub enable_fullscreen: bool,
    pub enable_tooltips: bool,
    pub enable_drag_drop: bool,
    pub enable_critical_path: bool,
    pub enable_baseline: bool,
    pub enable_actual_vs_planned: bool,
    pub enable_resource_loading: bool,
    pub enable_milestone_tracking: bool,
}

/// The features switched on by default: all but drag and drop, the baseline and the
/// comparison of actual with planned dates.
pub open spec fn default_features() -> GanttAdvancedFeatures {
    GanttAdvancedFeatures {
        enable_zoom: true,
        enable_pan: true,
        enable_export: true,
        enable_print: true,
        enable_fullscreen: true,
        enable_tooltips: true,
        enable_drag_drop: false,
        enable_critical_path: true,
        enable_baseline: false,
        enable_actual_vs_planned: false,
        enable_resource_loading: true,
        enable_milestone_tracking: true,
    }
}

impl GanttAdvancedFeatures {
    /// The default features.
    pub fn new() -> (f: GanttAdvancedFeatures)
        ensures
            f == default_features(),
    {
        GanttAdvancedFeatures {
            enable_zoom: true,
            enable_pan: true,
            enable_export: true,
            enable_print: true,
            enable_fullscreen: true,
            enable_tooltips: true,
            enable_drag_drop: false,
            enable_critical_path: true,
            enable_baseline: false,
            enable_actual_vs_planned: false,
            enable_resource_loading: true,
            enable_milestone_tracking: true,
        }
    }

    /// The same features with drag and drop on.
    pub fn with_drag_drop(self) -> (f: GanttAdvancedFeatures)
        ensures
            f == (GanttAdvancedFeatures { enable_drag_drop: true, ..self }),
    {
        let mut f = self;
        f.enable_drag_drop = true;
        f
    }

    /// The same features with the baseline on.
    pub fn with_baseline(self) -> (f: GanttAdvancedFeatures)
        ensures
            f == (GanttAdvancedFeatures { enable_baseline: true, ..self }),
    {
        let mut f = self;
        f.enable_baseline = true;
        f
    }

    /// The same features with the comparison of actual with planned dates on.
    pub fn with_actual_vs_planned(self) -> (f: GanttAdvancedFeatures)
        ensures
            f == (GanttAdvancedFeatures { enable_actual_vs_planned: true, ..self }),
    {
        let mut f = self;
        f.enable_actual_vs_planned = true;
        f
    }
}

impl Default for GanttAdvancedFeatures {
    fn default() -> (f: Self)
        ensures
            f == default_features(),
    {
        Self::new()
    }
}

/// How much of a chart is loaded.
#[derive(Debug, Clone, Copy, PartialEq, Eq)]
pub struct GanttPerformanceStats {
    pub total_tasks: usize,
    pub loaded_tasks: usize,
    pub total_dependencies: usize,
    pub is_paginated: bool,
    pub is_optimized: bool,
    pub memory_usage_estimate: usize,
}

impl GanttPerformanceStats {
    /// Whether the chart is optimized and loads less than all of its tasks (the share
    /// of loaded tasks is below one hundred percent; with no task it is zero).
    pub fn is_efficient(&self) -> (b: bool)
        ensures
            b == (self.is_optimized && (self.total_tasks == 0 || self.loaded_tasks < self.total_tasks)),
    {
        self.is_optimized && (self.total_tasks == 0 || self.loaded_tasks < self.total_tasks)
    }
}

/// How many tasks and dependencies pass the filters of a chart.
#[derive(Debug, Clone, Copy, PartialEq, Eq)]
pub struct GanttFilterStats {
    pub total_tasks: usize,
    pub filtered_tasks: usize,
    pub total_dependencies: usize,
    pub filtered_dependencies: usize,
    pub filter_active: bool,
}

/// The formats a chart can be exported to.
#[derive(Debug, Clone, Copy, PartialEq, Eq)]
pub enum GanttExportFormat {
    Json,
    Csv,
    Html,
}

/// A dependency drawn on the chart.
#[derive(Debug, Clone, PartialEq, Eq)]
pub struct GanttDependency {
    pub from_task: String,
    pub to_task: String,
    pub dependency_type: DependencyType,
}

/// The settings of a chart: its title and dates, the time scale, what it shows,
/// its size, and the switches that help with many tasks.
#[derive(Debug, Clone, PartialEq, Eq)]
pub struct GanttConfig {
    pub title: String,
    pub start_date: Date,
    pub end_date: Date,
    pub view_type: GanttViewType,
    pub show_dependencies: bool,
    pub show_resources: bool,
    pub show_progress: bool,
    pub width: u32,
    pub height: u32,
    pub enable_pagination: bool,
    pub tasks_per_page: usize,
    pub enable_virtualization: bool,
    pub cache_size: usize,
    pub enable_lazy_loading: bool,
}

impl GanttConfig {
    /// Settings with the defaults: daily scale, everything shown, 1200 by 600, no
    /// pagination (50 tasks a page when on), no virtualization (1000 cached), no
    /// lazy loading.
    pub fn new(title: String, start_date: Date, end_date: Date) -> (c: GanttConfig)
        ensures
            c == (GanttConfig {
                title,
                start_date,
                end_date,
                view_type: GanttViewType::Days,
                show_dependencies: true,
                show_resources: true,
                show_progress: true,
                width: 1200,
                height: 600,
                enable_pagination: false,
                tasks_per_page: 50,
                enable_virtualization: false,
                cache_size: 1000,
                enable_lazy_loading: false,
            }),
    {
        GanttConfig {
            title,
            start_date,
            end_date,
            view_type: GanttViewType::Days,
            show_dependencies: true,
            show_resources: true,
            show_progress: true,
            width: 1200,
            height: 600,
            enable_pagination: false,
            tasks_per_page: 50,
            enable_virtualization: false,
            cache_size: 1000,
            enable_lazy_loading: false,
        }
    }

    /// The settings with another time scale.
    pub fn with_view_type(self, view_type: GanttViewType) -> (c: GanttConfig)
        ensures
            c == (GanttConfig { view_type, ..self }),
    {
        GanttConfig { view_type, ..self }
    }

    /// The settings, showing dependencies or not.
    pub fn with_dependencies(self, show: bool) -> (c: GanttConfig)
        ensures
            c == (GanttConfig { show_dependencies: show, ..self }),
    {
        GanttConfig { show_dependencies: show, ..self }
    }

    /// The settings, showing resources or not.
    pub fn with_resources(self, show: bool) -> (c: GanttConfig)
        ensures
            c == (GanttConfig { show_resources: show, ..self }),
    {
        GanttConfig { show_resources: show, ..self }
    }

    /// The settings, showing progress or not.
    pub fn with_progress(self, show: bool) -> (c: GanttConfig)
        ensures
            c == (GanttConfig { show_progress: show, ..self }),
    {
        GanttConfig { show_progress: show, ..self }
    }

    /// The settings with another size.
    pub fn with_dimensions(self, width: u32, height: u32) -> (c: GanttConfig)
        ensures
            c == (GanttConfig { width, height, ..self }),
    {
        GanttConfig { width, height, ..self }
    }

    /// The settings with pagination on, at this many tasks a page.
    pub fn with_pagination(self, tasks_per_page: usize) -> (c: GanttConfig)
        ensures
            c == (GanttConfig { enable_pagination: true, tasks_per_page, ..self }),
    {
        GanttConfig { enable_pagination: true, tasks_per_page, ..self }
    }

    /// The settings with virtualization on, caching this many items.
    pub fn with_virtualization(self, cache_size: usize) -> (c: GanttConfig)
        ensures
            c == (GanttConfig { enable_virtualization: true, cache_size, ..self }),
    {
        GanttConfig { enable_virtualization: true, cache_size, ..self }
    }

    /// The settings with lazy loading on.
    pub fn with_lazy_loading(self) -> (c: GanttConfig)
        ensures
            c == (GanttConfig { enable_lazy_loading: true, ..self }),
    {
        GanttConfig { enable_lazy_loading: true, ..self }
    }

    /// The settings for more than a thousand tasks: pages of 100, 500 cached items,
    /// virtualization and lazy loading on.
    pub fn for_large_dataset(self) -> (c: GanttConfig)
        ensures
            c == (GanttConfig {
                enable_pagination: true,
                tasks_per_page: 100,
                enable_virtualization: true,
                cache_size: 500,
                enable_lazy_loading: true,
                ..self
            }),
    {
        GanttConfig {
            enable_pagination: true,
            tasks_per_page: 100,
            enable_virtualization: true,
            cache_size: 500,
            enable_lazy_loading: true,
            ..self
        }
    }

    /// The settings for more than ten thousand tasks: pages of 50, 200 cached items,
    /// virtualization and lazy loading on.
    pub fn for_very_large_dataset(self) -> (c: GanttConfig)
        ensures
            c == (GanttConfig {
                enable_pagination: true,
                tasks_per_page: 50,
                enable_virtualization: true,
                cache_size: 200,
                enable_lazy_loading: true,
                ..self
            }),
    {
        GanttConfig {
            enable_pagination: true,
            tasks_per_page: 50,
            enable_virtualization: true,
            cache_size: 200,
            enable_lazy_loading: true,
            ..self
        }
    }
}

// ============================================================================
// DECISIONS OF THE CHART
// ============================================================================

/// The position of the longest task, scanning from position `i` with the longest
/// length seen so far: the first task strictly longer than every task before it and
/// than zero days.
pub open spec fn longest_from(days: Seq<i32>, i: int, max: int, best: Option<int>) -> Option<int>
    decreases days.len() - i,
{
    if i < 0 || i >= days.len() {
        best
    } else if days[i] > max {
        longest_from(days, i + 1, days[i] as int, Some(i))
    } else {
        longest_from(days, i + 1, max, best)
    }
}

/// The position of the task that the chart marks as critical: the first of the
/// longest tasks, given their lengths in days, where one lasts more than zero days.
pub fn longest_task_index(durations_in_days: &Vec<i32>) -> (r: Option<usize>)
    ensures
        match longest_from(durations_in_days@, 0, 0, None) {
            Some(i) => r matches Some(j) && j == i,
            None => r is None,
        },
{
    let mut max: i32 = 0;
    let mut best: Option<usize> = None;
    let mut i: usize = 0;
    while i < durations_in_days.len()
        invariant
            0 <= i <= durations_in_days@.len(),
            longest_from(durations_in_days@, 0, 0, None) == longest_from(
                durations_in_days@,
                i as int,
                max as int,
                match best {
                    Some(b) => Some(b as int),
                    None => None,
                },
            ),
        decreases durations_in_days.len() - i,
    {
        if durations_in_days[i] > max {
            max = durations_in_days[i];
            best = Some(i);
        }
        i = i + 1;
    }
    best
}

/// Name for the text that `str::to_lowercase` gives.
pub uninterp spec fn lowercase(s: Seq<char>) -> Seq<char>;

/// `str::to_lowercase`: the text in lower case, by Unicode's rules. The result is
/// named; it depends on the text alone.
#[verifier::external_body]
fn str_to_lowercase(s: &str) -> (r: String)
    ensures
        r@ == lowercase(s@),
{
    s.to_lowercase()
}

/// Whether a task passes the filters of a chart other than the one on progress: its
/// state is among the chosen ones, it has one of the chosen resources, its dates lie
/// within the chosen range, and its name holds the search text, both taken in lower
/// case. A filter that is not set lets every task pass.
pub open spec fn passes_filters(
    status_filter: Option<Seq<TaskStatus>>,
    resource_filter: Option<Seq<Seq<char>>>,
    date_range_filter: Option<(Date, Date)>,
    search_text: Option<Seq<char>>,
    status: TaskStatus,
    resource: Option<Seq<char>>,
    start_date: Date,
    end_date: Date,
    name: Seq<char>,
) -> bool {
    &&& (status_filter matches Some(ss) ==> ss.contains(status))
    &&& (resource_filter matches Some(rs) ==> (resource matches Some(r) && rs.contains(r)))
    &&& (date_range_filter matches Some(range) ==> range.0.day() <= start_date.day() && end_date.day() <= range.1.day())
    &&& (search_text matches Some(t) ==> find_from(lowercase(name), lowercase(t), 0) is Some)
}

/// The views of an optional list of strings.
pub open spec fn opt_strings(o: Option<Vec<String>>) -> Option<Seq<Seq<char>>> {
    match o {
        Some(v) => Some(v@.map_values(|x: String| x@)),
        None => None,
    }
}

/// The contents of an optional list of states.
pub open spec fn opt_statuses(o: Option<Vec<TaskStatus>>) -> Option<Seq<TaskStatus>> {
    match o {
        Some(v) => Some(v@),
        None => None,
    }
}

/// The view of an optional string.
pub open spec fn opt_text(o: Option<String>) -> Option<Seq<char>> {
    match o {
        Some(x) => Some(x@),
        None => None,
    }
}

fn statuses_contain(v: &Vec<TaskStatus>, s: TaskStatus) -> (b: bool)
    ensures
        b == v@.contains(s),
{
    let mut i: usize = 0;
    while i < v.len()
        invariant
            0 <= i <= v@.len(),
            forall|k: int| 0 <= k < i ==> v@[k] != s,
        decreases v.len() - i,
    {
        if v[i] == s {
            assert(v@[i as int] == s);
            return true;
        }
        i = i + 1;
    }
    false
}

fn strings_contain(v: &Vec<String>, x: &str) -> (b: bool)
    ensures
        b == v@.map_values(|y: String| y@).contains(x@),
{
    let ghost w = v@.map_values(|y: String| y@);
    let mut i: usize = 0;
    while i < v.len()
        invariant
            0 <= i <= v@.len(),
            w == v@.map_values(|y: String| y@),
            forall|k: int| 0 <= k < i ==> v@[k]@ != x@,
        decreases v.len() - i,
    {
        if str_eq(v[i].as_str(), x) {
            assert(w[i as int] == x@);
            return true;
        }
        i = i + 1;
    }
    proof {
        if w.contains(x@) {
            let k = choose|k: int| 0 <= k < w.len() && w[k] == x@;
            assert(v@[k]@ == x@);
        }
    }
    false
}

/// Whether a task passes the filters of a chart other than the one on progress.
pub fn matches_filters(
    status_filter: &Option<Vec<TaskStatus>>,
    resource_filter: &Option<Vec<String>>,
    date_range_filter: Option<(Date, Date)>,
    search_text: &Option<String>,
    status: TaskStatus,
    resource: &Option<String>,
    start_date: Date,
    end_date: Date,
    name: &str,
) -> (b: bool)
    ensures
        b == passes_filters(
            opt_statuses(*status_filter),
            opt_strings(*resource_filter),
            date_range_filter,
            opt_text(*search_text),
            status,
            opt_text(*resource),
            start_date,
            end_date,
            name@,
        ),
{
    match status_filter {
        Some(statuses) => {
            if !statuses_contain(statuses, status) {
                return false;
            }
        },
        None => {},
    }
    match resource_filter {
        Some(resources) => match resource {
            Some(r) => {
                if !strings_contain(resources, r.as_str()) {
                    return false;
                }
            },
            None => {
                return false;
            },
        },
        None => {},
    }
    match date_range_filter {
        Some((start, end)) => {
            if start_date.before(&start) || end.before(&end_date) {
                return false;
            }
        },
        None => {},
    }
    match search_text {
        Some(text) => {
            let lower_name = str_to_lowercase(name);
            let lower_text = str_to_lowercase(text.as_str());
            if !text_contains(lower_name.as_str(), lower_text.as_str()) {
                return false;
            }
        },
        None => {},
    }
    true
}

/// A task of the chart as the dependency graph gives it: its identifier and name,
/// its dates, its state, and the tasks that depend on it.
#[derive(Debug)]
pub struct GanttRow {
    pub id: String,
    pub name: String,
    pub start_date: Date,
    pub end_date: Date,
    pub status: TaskStatus,
    pub dependencies: Vec<String>,
}

/// The items of a list in order, each kept once, at its first place.
pub open spec fn first_occurrences(s: Seq<Seq<char>>) -> Seq<Seq<char>>
    decreases s.len(),
{
    if s.len() == 0 {
        s
    } else {
        let r = first_occurrences(s.drop_last());
        if r.contains(s.last()) { r } else { r.push(s.last()) }
    }
}

/// The tasks that depend on task `i` of the graph, in the order of its dependencies.
pub open spec fn successors_of(g: GraphModel, i: int) -> Seq<Seq<char>> {
    g.deps[i].map_values(|d: crate::project_management::advanced_dependencies::DependencyView| d.successor_id)
}

/// Whether a row shows task `i` of the graph: the task's dates where it has them and
/// the chart's dates otherwise, in progress where it has both dates and not started
/// otherwise, with the tasks that depend on it, each once.
pub open spec fn row_of_node(g: GraphModel, i: int, row: GanttRow, start: Date, end: Date) -> bool {
    let n = g.nodes[i];
    &&& row.id@ == n.id
    &&& row.name@ == n.name
    &&& row.start_date == match n.start_date { Some(d) => d, None => start }
    &&& row.end_date == match n.end_date { Some(d) => d, None => end }
    &&& row.status == if n.start_date is Some && n.end_date is Some { TaskStatus::InProgress } else { TaskStatus::NotStarted }
    &&& row.dependencies@.map_values(|x: String| x@) == first_occurrences(successors_of(g, i))
}

fn push_once(v: &mut Vec<String>, x: &String)
    ensures
        final(v)@.map_values(|y: String| y@) == if old(v)@.map_values(|y: String| y@).contains(x@) {
            old(v)@.map_values(|y: String| y@)
        } else {
            old(v)@.map_values(|y: String| y@).push(x@)
        },
{
    if !strings_contain(v, x.as_str()) {
        let ghost v0 = v@;
        v.push(x.clone());
        proof {
            assert(v@.map_values(|y: String| y@) =~= v0.map_values(|y: String| y@).push(x@));
        }
    }
}

/// The tasks of the graph as rows of a chart running from `start` to `end`, in the
/// graph's order.
pub fn gantt_rows(graph: &AdvancedDependencyGraph, start: Date, end: Date) -> (rows: Vec<GanttRow>)
    requires
        graph.wf(),
    ensures
        rows@.len() == graph@.nodes.len(),
        forall|i: int| 0 <= i < rows@.len() ==> row_of_node(graph@, i, #[trigger] rows@[i], start, end),
{
    let n = graph.node_count();
    let mut rows: Vec<GanttRow> = Vec::new();
    let mut i: usize = 0;
    while i < n
        invariant
            graph.wf(),
            n == graph@.nodes.len(),
            0 <= i <= n,
            rows@.len() == i,
            forall|j: int| 0 <= j < i ==> row_of_node(graph@, j, #[trigger] rows@[j], start, end),
        decreases n - i,
    {
        let node = graph.node_at(i);
        let both = node.start_date.is_some() && node.end_date.is_some();
        let status = if both { TaskStatus::InProgress } else { TaskStatus::NotStarted };
        let row_start = match node.start_date {
            Some(d) => d,
            None => start,
        };
        let row_end = match node.end_date {
            Some(d) => d,
            None => end,
        };
        let count = graph.dependency_count_at(i);
        let ghost succ = successors_of(graph@, i as int);
        let mut deps: Vec<String> = Vec::new();
        let mut k: usize = 0;
        while k < count
            invariant
                graph.wf(),
                n == graph@.nodes.len(),
                i < n,
                count == graph@.deps[i as int].len(),
                succ == successors_of(graph@, i as int),
                0 <= k <= count,
                deps@.map_values(|y: String| y@) == first_occurrences(succ.take(k as int)),
            decreases count - k,
        {
            let d = graph.dependency_at(i, k);
            push_once(&mut deps, &d.successor_id);
            proof {
                assert(succ.take(k as int + 1).drop_last() =~= succ.take(k as int));
                assert(succ.take(k as int + 1).last() == d.successor_id@);
            }
            k = k + 1;
        }
        proof {
            assert(succ.take(count as int) =~= succ);
        }
        let ghost rows0 = rows@;
        rows.push(GanttRow {
            id: node.id.clone(),
            name: node.name.clone(),
            start_date: row_start,
            end_date: row_end,
            status,
            dependencies: deps,
        });
        proof {
            assert forall|j: int| 0 <= j < i + 1 implies row_of_node(graph@, j, #[trigger] rows@[j], start, end) by {
                if j < i {
                    assert(rows@[j] == rows0[j]);
                }
            }
        }
        i = i + 1;
    }
    rows
}

/// The dependencies of task `i` of the graph as drawn on a chart: from the task to
/// each task that depends on it, with the kind of the dependency.
pub open spec fn drawn_from(g: GraphModel, i: int) -> Seq<(Seq<char>, Seq<char>, DependencyType)> {
    g.deps[i].map_values(
        |d: crate::project_management::advanced_dependencies::DependencyView| (g.nodes[i].id, d.successor_id, d.dependency_type),
    )
}

/// The dependencies of the first `n` tasks of the graph as drawn on a chart, task by
/// task.
pub open spec fn drawn_upto(g: GraphModel, n: int) -> Seq<(Seq<char>, Seq<char>, DependencyType)>
    decreases n,
{
    if n <= 0 {
        Seq::empty()
    } else {
        drawn_upto(g, n - 1) + drawn_from(g, n - 1)
    }
}

/// The content of a drawn dependency.
pub open spec fn drawn(d: GanttDependency) -> (Seq<char>, Seq<char>, DependencyType) {
    (d.from_task@, d.to_task@, d.dependency_type)
}

/// Every dependency of the graph as drawn on a chart, task by task in the graph's order.
pub fn gantt_dependencies(graph: &AdvancedDependencyGraph) -> (r: Vec<GanttDependency>)
    requires
        graph.wf(),
    ensures
        r@.map_values(|d: GanttDependency| drawn(d)) == drawn_upto(graph@, graph@.nodes.len() as int),
{
    let n = graph.node_count();
    let mut r: Vec<GanttDependency> = Vec::new();
    let mut i: usize = 0;
    while i < n
        invariant
            graph.wf(),
            n == graph@.nodes.len(),
            0 <= i <= n,
            r@.map_values(|d: GanttDependency| drawn(d)) == drawn_upto(graph@, i as int),
        decreases n - i,
    {
        let node = graph.node_at(i);
        let count = graph.dependency_count_at(i);
        let ghost before = drawn_upto(graph@, i as int);
        let ghost row = drawn_from(graph@, i as int);
        let mut k: usize = 0;
        while k < count
            invariant
                graph.wf(),
                n == graph@.nodes.len(),
                i < n,
                node@ == graph@.nodes[i as int],
                count == graph@.deps[i as int].len(),
                row == drawn_from(graph@, i as int),
                0 <= k <= count,
                r@.map_values(|d: GanttDependency| drawn(d)) == before + row.take(k as int),
            decreases count - k,
        {
            let d = graph.dependency_at(i, k);
            let ghost r0 = r@;
            r.push(GanttDependency {
                from_task: node.id.clone(),
                to_task: d.successor_id.clone(),
                dependency_type: d.dependency_type,
            });
            proof {
                assert(row.take(k as int + 1) =~= row.take(k as int).push(row[k as int]));
                assert(r@.map_values(|x: GanttDependency| drawn(x)) =~= r0.map_values(|x: GanttDependency| drawn(x)).push(
                    row[k as int],
                ));
            }
            k = k + 1;
        }
        proof {
            assert(row.take(count as int) =~= row);
        }
        i = i + 1;
    }
    r
}

// ============================================================================
// THE CHART AS HTML
// ============================================================================

/// A task as the chart draws it: its name, its state, the width of its progress bar
/// in percent, and its resource.
#[derive(Debug, Clone, PartialEq, Eq)]
pub struct ChartTask {
    pub name: String,
    pub status: TaskStatus,
    pub progress_width: u32,
    pub resource: Option<String>,
}

/// The CSS class suffix of a task state.
pub open spec fn status_class(s: TaskStatus) -> Seq<char> {
    match s {
        TaskStatus::NotStarted => "not-started"@,
        TaskStatus::InProgress => "in-progress"@,
        TaskStatus::Completed => "completed"@,
        TaskStatus::Delayed => "delayed"@,
        TaskStatus::OnHold => "on-hold"@,
    }
}

fn status_class_text(s: TaskStatus) -> (r: &'static str)
    ensures
        r@ == status_class(s),
{
    match s {
        TaskStatus::NotStarted => "not-started",
        TaskStatus::InProgress => "in-progress",
        TaskStatus::Completed => "completed",
        TaskStatus::Delayed => "delayed",
        TaskStatus::OnHold => "on-hold",
    }
}

/// A number written with at least two digits.
pub open spec fn two_digits(n: nat) -> Seq<char> {
    if n < 10 {
        "0"@ + decimal(n)
    } else {
        decimal(n)
    }
}

fn two_digit_text(n: u32) -> (s: String)
    ensures
        s@ == two_digits(n as nat),
{
    let t = u64_to_text(n as u64);
    if n < 10 {
        String::from_str("0").concat(t.as_str())
    } else {
        t
    }
}

/// The label of a day on the time line: its day of the month and its month, each
/// with two digits, as `chrono` writes `%d/%m`.
pub open spec fn day_label(d: int) -> Seq<char> {
    two_digits(month_day(d as i32).1 as nat) + "/"@ + two_digits(month_day(d as i32).0 as nat)
}

/// The time line items of the days from `d` to `end`.
pub open spec fn timeline_items(d: int, end: int) -> Seq<char>
    decreases end + 1 - d,
{
    if d > end {
        Seq::empty()
    } else {
        "<div class=\"gantt-timeline-item\">"@ + day_label(d) + "</div>"@ + timeline_items(d + 1, end)
    }
}

/// The block of one task.
pub open spec fn task_item(t: ChartTask) -> Seq<char> {
    "\n                <div class=\"gantt-task\">\n                    <div class=\"gantt-task-name\">"@ + t.name@ + "</div>\n                    <div class=\"gantt-task-bar\">\n                        <div class=\"gantt-task-progress gantt-task-status-"@ + status_class(t.status) + "\" \n                             style=\"width: "@ + decimal(t.progress_width as nat)
        + "%; background-color: "@ + task_status_color(t.status) + ";\"></div>\n                    </div>\n                    <div class=\"gantt-task-resource\">"@
        + (match t.resource { Some(r) => r@, None => Seq::<char>::empty() }) + "</div>\n                </div>\n            "@
}

/// The blocks of the tasks, in order.
pub open spec fn task_items(ts: Seq<ChartTask>) -> Seq<char>
    decreases ts.len(),
{
    if ts.len() == 0 {
        Seq::empty()
    } else {
        task_items(ts.drop_last()) + task_item(ts.last())
    }
}

/// The block of one dependency.
pub open spec fn dependency_item(d: GanttDependency) -> Seq<char> {
    "\n                    <div class=\"gantt-dependency\">\n                        <span>"@ + d.from_task@ + "</span>\n                        <span class=\"gantt-dependency-arrow\">→</span>\n                        <span>"@ + d.to_task@ + "</span>\n                    </div>\n                "@
}

/// The blocks of the dependencies, in order.
pub open spec fn dependency_items(ds: Seq<GanttDependency>) -> Seq<char>
    decreases ds.len(),
{
    if ds.len() == 0 {
        Seq::empty()
    } else {
        dependency_items(ds.drop_last()) + dependency_item(ds.last())
    }
}

/// The legend entry of a state: its colour and its name.
pub open spec fn legend_item(s: TaskStatus) -> Seq<char> {
    "\n                <div class=\"gantt-legend-item\">\n                    <div class=\"gantt-legend-color\" style=\"background-color: "@ + task_status_color(s) + ";\"></div>\n                    <span>"@ + task_status_description(s) + "</span>\n                </div>\n            "@
}

/// The HTML body of a chart: the title, a time line item for every day from the
/// first to the last, a block for every task, the dependencies where the settings
/// show them and there are any, and the legend of the five states.
pub open spec fn chart_html_spec(c: GanttConfig, ts: Seq<ChartTask>, ds: Seq<GanttDependency>) -> Seq<char> {
    "\n<div class=\"gantt-container\">\n    <div class=\"gantt-header\">"@ + c.title@ + "</div>\n    <div class=\"gantt-timeline\">\n"@ + timeline_items(c.start_date.day(), c.end_date.day()) + "</div><div class=\"gantt-tasks\">"@
        + task_items(ts) + "</div></div>"@
        + (if c.show_dependencies && ds.len() > 0 {
            "<div class=\"gantt-dependencies\"><h3>Dependências</h3>"@ + dependency_items(ds) + "</div>"@
        } else {
            Seq::<char>::empty()
        })
        + "<div class=\"gantt-legend\">"@ + legend_item(TaskStatus::NotStarted) + legend_item(TaskStatus::InProgress)
        + legend_item(TaskStatus::Completed) + legend_item(TaskStatus::Delayed) + legend_item(TaskStatus::OnHold)
        + "</div>"@
}

fn timeline_html(start: Date, end: Date) -> (s: String)
    requires
        start.wf(),
        end.wf(),
        start.day() <= end.day() ==> end.day() < MAX_DAY,
    ensures
        s@ == timeline_items(start.day(), end.day()),
{
    let ghost sd = start.day();
    let ghost ed = end.day();
    let mut html = String::new();
    let mut cur = start;
    while !end.before(&cur)
        invariant
            cur.wf(),
            ed == end.day(),
            sd <= cur.day() <= ed + 1 || sd > ed,
            cur.day() <= ed ==> ed < MAX_DAY,
            html@ + timeline_items(cur.day(), ed) == timeline_items(sd, ed),
        decreases ed + 1 - cur.day(),
    {
        let ghost before = html@;
        let md = cur.month_day();
        html.append("<div class=\"gantt-timeline-item\">");
        html.append(two_digit_text(md.1).as_str());
        html.append("/");
        html.append(two_digit_text(md.0).as_str());
        html.append("</div>");
        proof {
            assert(html@ + timeline_items(cur.day() + 1, ed) =~= before + timeline_items(cur.day(), ed));
            cur.lemma_in_range();
        }
        cur = match cur.checked_add_days(1) {
            Some(next) => next,
            None => {
                proof {
                    assert(false);
                }
                cur
            },
        };
    }
    proof {
        assert(timeline_items(cur.day(), ed) =~= Seq::<char>::empty());
        assert(html@ =~= html@ + Seq::<char>::empty());
    }
    html
}

fn tasks_html(tasks: &Vec<ChartTask>) -> (s: String)
    ensures
        s@ == task_items(tasks@),
{
    let mut html = String::new();
    let mut i: usize = 0;
    while i < tasks.len()
        invariant
            0 <= i <= tasks@.len(),
            html@ == task_items(tasks@.take(i as int)),
        decreases tasks.len() - i,
    {
        let t = &tasks[i];
        let ghost prev = html@;
        html.append("\n                <div class=\"gantt-task\">\n                    <div class=\"gantt-task-name\">");
        html.append(t.name.as_str());
        html.append("</div>\n                    <div class=\"gantt-task-bar\">\n                        <div class=\"gantt-task-progress gantt-task-status-");
        html.append(status_class_text(t.status));
        html.append("\" \n                             style=\"width: ");
        html.append(u64_to_text(t.progress_width as u64).as_str());
        html.append("%; background-color: ");
        html.append(t.status.color());
        html.append(";\"></div>\n                    </div>\n                    <div class=\"gantt-task-resource\">");
        match &t.resource {
            Some(r) => {
                html.append(r.as_str());
            },
            None => {},
        }
        html.append("</div>\n                </div>\n            ");
        proof {
            assert(tasks@.take(i as int + 1).drop_last() =~= tasks@.take(i as int));
            assert(html@ =~= prev + task_item(tasks@[i as int]));
        }
        i = i + 1;
    }
    proof {
        assert(tasks@.take(tasks@.len() as int) =~= tasks@);
    }
    html
}

fn dependencies_html(dependencies: &Vec<GanttDependency>) -> (s: String)
    ensures
        s@ == dependency_items(dependencies@),
{
    let mut html = String::new();
    let mut k: usize = 0;
    while k < dependencies.len()
        invariant
            0 <= k <= dependencies@.len(),
            html@ == dependency_items(dependencies@.take(k as int)),
        decreases dependencies.len() - k,
    {
        let d = &dependencies[k];
        let ghost prev = html@;
        html.append("\n                    <div class=\"gantt-dependency\">\n                        <span>");
        html.append(d.from_task.as_str());
        html.append("</span>\n                        <span class=\"gantt-dependency-arrow\">→</span>\n                        <span>");
        html.append(d.to_task.as_str());
        html.append("</span>\n                    </div>\n                ");
        proof {
            assert(dependencies@.take(k as int + 1).drop_last() =~= dependencies@.take(k as int));
            assert(html@ =~= prev + dependency_item(dependencies@[k as int]));
        }
        k = k + 1;
    }
    proof {
        assert(dependencies@.take(dependencies@.len() as int) =~= dependencies@);
    }
    html
}

fn legend_html() -> (s: String)
    ensures
        s@ == legend_item(TaskStatus::NotStarted) + legend_item(TaskStatus::InProgress)
            + legend_item(TaskStatus::Completed) + legend_item(TaskStatus::Delayed) + legend_item(TaskStatus::OnHold),
{
    let mut html = String::new();
    let statuses = [TaskStatus::NotStarted, TaskStatus::InProgress, TaskStatus::Completed, TaskStatus::Delayed, TaskStatus::OnHold];
    let mut j: usize = 0;
    while j < 5
        invariant
            0 <= j <= 5,
            statuses@ == seq![TaskStatus::NotStarted, TaskStatus::InProgress, TaskStatus::Completed, TaskStatus::Delayed, TaskStatus::OnHold],
            html@ == legend_items(statuses@.take(j as int)),
        decreases 5 - j,
    {
        let st = statuses[j];
        let ghost prev = html@;
        html.append("\n                <div class=\"gantt-legend-item\">\n                    <div class=\"gantt-legend-color\" style=\"background-color: ");
        html.append(st.color());
        html.append(";\"></div>\n                    <span>");
        html.append(st.description());
        html.append("</span>\n                </div>\n            ");
        proof {
            assert(statuses@.take(j as int + 1).drop_last() =~= statuses@.take(j as int));
            assert(html@ =~= prev + legend_item(statuses@[j as int]));
        }
        j = j + 1;
    }
    proof {
        let sts = statuses@;
        assert(sts.take(5) =~= sts);
        reveal_with_fuel(legend_items, 6);
        assert(sts.take(1).drop_last() =~= sts.take(0));
        assert(sts.take(2).drop_last() =~= sts.take(1));
        assert(sts.take(3).drop_last() =~= sts.take(2));
        assert(sts.take(4).drop_last() =~= sts.take(3));
        assert(sts.take(5).drop_last() =~= sts.take(4));
        assert(legend_items(sts) =~= legend_item(TaskStatus::NotStarted) + legend_item(TaskStatus::InProgress)
            + legend_item(TaskStatus::Completed) + legend_item(TaskStatus::Delayed) + legend_item(TaskStatus::OnHold));
    }
    html
}

/// Writes the HTML body of a chart with these settings, tasks and dependencies.
pub fn chart_html(config: &GanttConfig, tasks: &Vec<ChartTask>, dependencies: &Vec<GanttDependency>) -> (s: String)
    requires
        config.start_date.wf(),
        config.end_date.wf(),
        config.start_date.day() <= config.end_date.day() ==> config.end_date.day() < MAX_DAY,
    ensures
        s@ == chart_html_spec(*config, tasks@, dependencies@),
{
    let mut html = String::from_str("\n<div class=\"gantt-container\">\n    <div class=\"gantt-header\">");
    html.append(config.title.as_str());
    html.append("</div>\n    <div class=\"gantt-timeline\">\n");
    html.append(timeline_html(config.start_date, config.end_date).as_str());
    html.append("</div><div class=\"gantt-tasks\">");
    html.append(tasks_html(tasks).as_str());
    html.append("</div></div>");
    let ghost before_deps = html@;
    if config.show_dependencies && dependencies.len() > 0 {
        html.append("<div class=\"gantt-dependencies\"><h3>Dependências</h3>");
        html.append(dependencies_html(dependencies).as_str());
        html.append("</div>");
    } else {
        proof {
            assert(html@ =~= before_deps + Seq::<char>::empty());
        }
    }
    html.append("<div class=\"gantt-legend\">");
    html.append(legend_html().as_str());
    html.append("</div>");
    proof {
        assert(html@ =~= chart_html_spec(*config, tasks@, dependencies@));
    }
    html
}

/// The legend entries of the states, in order.
pub open spec fn legend_items(ss: Seq<TaskStatus>) -> Seq<char>
    decreases ss.len(),
{
    if ss.len() == 0 {
        Seq::empty()
    } else {
        legend_items(ss.drop_last()) + legend_item(ss.last())
    }
}

} // verus!
