//! Project-management domain library: dependency graphs between tasks,
//! schedule calculation, conflict detection, resources and their limits.

pub mod dates;
pub mod errors;
pub mod text;
pub mod project_management;
pub mod resource_management;
pub mod scheduling;
