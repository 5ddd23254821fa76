//! Rules for vacations.

use vstd::prelude::*;
use crate::project_management::layoff_period::LayoffPeriod;

verus! {

/// How vacations may be taken in a company.
#[derive(Debug, Clone, PartialEq, Eq, Default)]
pub struct VacationRules {
    pub max_concurrent_vacations: Option<u32>,
    pub allow_layoff_vacations: Option<bool>,
    pub require_layoff_vacation_period: Option<bool>,
    pub layoff_periods: Option<Vec<LayoffPeriod>>,
}

} // verus!
