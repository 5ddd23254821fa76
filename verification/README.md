# project_domain

The domain of a project planner: tasks linked by dependencies, the dates calculated
from them, the conflicts found in a plan, the propagation of changes, scenarios of a
project, templates, and resources with their states, absences and limits on work in
progress. The library is written in Verus; its functions carry contracts that Verus
proves.

- `src/dates.rs`: calendar dates as day numbers, with `chrono` doing the calendar work.
- `src/text.rs`: verified rendering and comparison of text.
- `src/errors.rs`: the errors of the domain.
- `src/project_management/`: the dependency graph (kept free of cycles), the date
  calculation, conflict validation, change propagation, scenarios, templates, projects
  and tasks with their states, the project builder, and the Gantt chart's HTML body
  (from each task's progress width).
- `src/resource_management/`: resources in their states, their assignments and limits,
  availability by day, and the check of resource types against a configuration.
- `src/scheduling/`: the scheduler (forward and backward passes, slack, critical path,
  resource conflicts), critical path analysis, resource levelling, conflict resolution,
  and the tests on scheduled tasks that schedule optimization uses.
- `app/`: ordinary Rust around the library: error types with `std::error::Error`, the
  Gantt chart export, and the shares, scores and sizes that are computed in floating
  point.
- `tests/`: tests of the library on concrete values.
