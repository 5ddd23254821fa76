pub mod advanced_dependencies;
pub mod builder;
pub mod calculation_cache_system;
pub mod conflict_validation_system;
pub mod dependency_calculation_engine;
pub mod errors;
pub mod gantt_chart;
pub mod layoff_period;
pub mod project;
pub mod project_new;
pub mod reporting;
pub mod resource_allocation;
pub mod state;
pub mod template;
pub mod vacation_rules;
pub mod scenario;
pub mod change_propagation_system;
