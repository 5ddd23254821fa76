//! Kinds of reports, charts, alerts and recommendations.

use vstd::prelude::*;

verus! {

/// What a report is about.
#[derive(Debug, Clone, PartialEq, Eq)]
pub enum ReportType {
    ProjectStatus,
    ResourceUtilization,
    TaskProgress,
    CostAnalysis,
    TimelineAnalysis,
    RiskAssessment,
    Custom(String),
}

/// The format of a report.
#[derive(Debug, Clone, Copy, PartialEq, Eq, Structural)]
pub enum ReportFormat {
    Html,
    Csv,
    Json,
    Text,
}

/// The kind of a metric.
#[derive(Debug, Clone, PartialEq, Eq)]
pub enum MetricType {
    Percentage,
    Duration,
    Currency,
    Count,
    Ratio,
    Custom(String),
}

/// The kind of a chart.
#[derive(Debug, Clone, Copy, PartialEq, Eq, Structural)]
pub enum ChartType {
    Gantt,
    Burndown,
    ResourceUtilization,
    CostTrend,
    RiskMatrix,
    Timeline,
    Pie,
    Bar,
    Line,
    Area,
}

/// How a chart is drawn.
#[derive(Debug, Clone, PartialEq, Eq)]
pub struct ChartOptions {
    pub title: Option<String>,
    pub x_axis_label: Option<String>,
    pub y_axis_label: Option<String>,
    pub show_legend: bool,
    pub responsive: bool,
    pub animation: bool,
}

/// How serious an alert is.
#[derive(Debug, Clone, Copy, PartialEq, Eq, Structural)]
pub enum AlertSeverity {
    Info,
    Warning,
    Error,
    Critical,
}

/// What an alert is about.
#[derive(Debug, Clone, Copy, PartialEq, Eq, Structural)]
pub enum AlertCategory {
    Schedule,
    Cost,
    Resource,
    Quality,
    Risk,
    Security,
    Compliance,
    General,
}

/// How urgent a recommendation is.
#[derive(Debug, Clone, Copy, PartialEq, Eq, Structural)]
pub enum RecommendationPriority {
    Low,
    Medium,
    High,
    Critical,
}

/// What a recommendation improves.
#[derive(Debug, Clone, Copy, PartialEq, Eq, Structural)]
pub enum RecommendationCategory {
    ScheduleOptimization,
    CostReduction,
    ResourceAllocation,
    QualityImprovement,
    RiskMitigation,
    ProcessImprovement,
}

} // verus!
