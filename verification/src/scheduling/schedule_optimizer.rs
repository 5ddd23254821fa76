//! Goals and algorithms of schedule optimization, and the tests on scheduled tasks
//! that the optimization algorithms rest on.

use vstd::prelude::*;
use crate::project_management::calculation_cache_system::string_views;
use crate::scheduling::scheduler::{overlap, ProjectSchedule, ScheduledTask, DAY_MILLIS};

verus! {

/// What a schedule optimization aims at.
#[derive(Debug, Clone, Copy, PartialEq, Eq, Structural)]
pub enum OptimizationGoal {
    MinimizeDuration,
    MinimizeResourceConflicts,
    MaximizeResourceUtilization,
    MinimizeCost,
    MaximizeQuality,
    MinimizeRisk,
}

/// An algorithm that optimizes a schedule.
#[derive(Debug, Clone, Copy, PartialEq, Eq, Structural)]
pub enum OptimizationAlgorithm {
    CriticalPathOptimization,
    ResourceBalancing,
    TimeCompression,
    CostOptimization,
    GeneticAlgorithm,
    SimulatedAnnealing,
    TabuSearch,
}

/// An optimization algorithm that failed, and why.
#[derive(Debug, Clone, PartialEq, Eq)]
pub struct FailedAlgorithm {
    pub algorithm: OptimizationAlgorithm,
    pub error: String,
}

/// The tasks whose total slack exceeds one day: those that more resources could
/// compress.
pub open spec fn compressible(tasks: Seq<ScheduledTask>) -> Seq<ScheduledTask> {
    tasks.filter(|t: ScheduledTask| t.total_slack > DAY_MILLIS)
}

/// The names of the given tasks, in order.
pub open spec fn task_names(tasks: Seq<ScheduledTask>) -> Seq<Seq<char>> {
    tasks.map_values(|t: ScheduledTask| t.task_id@)
}

/// Whether two tasks can run side by side: their early windows overlap.
pub fn can_parallelize(task1: &ScheduledTask, task2: &ScheduledTask) -> (b: bool)
    ensures
        b == overlap(*task1, *task2),
{
    task1.early_start < task2.early_finish && task2.early_start < task1.early_finish
}

/// The names, in schedule order, of the tasks with more than one day of total slack.
pub fn find_compressible_tasks(schedule: &ProjectSchedule) -> (r: Vec<String>)
    ensures
        string_views(r@) == task_names(compressible(schedule.tasks@)),
{
    let tasks = &schedule.tasks;
    let mut r: Vec<String> = Vec::new();
    let mut i: usize = 0;
    while i < tasks.len()
        invariant
            0 <= i <= tasks@.len(),
            string_views(r@) == task_names(compressible(tasks@.take(i as int))),
        decreases tasks.len() - i,
    {
        proof {
            let before = tasks@.take(i as int);
            assert(tasks@.take(i as int + 1) =~= before.push(tasks@[i as int]));
            reveal(Seq::filter);
            assert(before.push(tasks@[i as int]).drop_last() =~= before);
        }
        if tasks[i].total_slack > DAY_MILLIS {
            let name = tasks[i].task_id.clone();
            proof {
                assert(string_views(r@.push(name)) =~= string_views(r@).push(name@));
                assert(task_names(compressible(tasks@.take(i as int)).push(tasks@[i as int]))
                    =~= task_names(compressible(tasks@.take(i as int))).push(tasks@[i as int].task_id@));
            }
            r.push(name);
        }
        i = i + 1;
    }
    proof {
        assert(tasks@.take(tasks@.len() as int) =~= tasks@);
    }
    r
}

} // verus!
