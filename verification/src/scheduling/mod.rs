pub mod conflict_resolver;
pub mod critical_path;
pub mod resource_leveler;
pub mod schedule_optimizer;
pub mod scheduler;
