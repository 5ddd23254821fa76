//! The states of a resource as types, and the moves between them.

use vstd::prelude::*;
use crate::resource_management::resource::ProjectAssignment;

verus! {

/// What every resource state tells.
pub trait ResourceState: Sized {
    /// Whether a resource in this state can be assigned to a project.
    fn can_assign(&self) -> bool;

    /// Whether a resource in this state can be deactivated.
    fn can_deactivate(&self) -> bool;

    /// Whether a resource in this state can be reactivated.
    fn can_reactivate(&self) -> bool;

    /// The readable name of the state.
    fn display_name(&self) -> &'static str;

    /// The number of projects the resource is assigned to, in the model.
    spec fn assignments(&self) -> nat;

    /// The number of projects the resource is assigned to.
    fn assignment_count(&self) -> (n: usize)
        ensures
            n == self.assignments();
}

/// A resource free for assignments.
#[derive(Debug, Clone, Copy, PartialEq, Eq)]
pub struct Available;

/// A resource assigned to projects.
#[derive(Debug, Clone, PartialEq)]
pub struct Assigned {
    pub project_assignments: Vec<ProjectAssignment>,
}

/// A resource no longer active.
#[derive(Debug, Clone, Copy, PartialEq, Eq)]
pub struct Inactive;

impl ResourceState for Available {
    fn can_assign(&self) -> (b: bool)
        ensures
            b,
    {
        true
    }

    fn can_deactivate(&self) -> (b: bool)
        ensures
            b,
    {
        true
    }

    fn can_reactivate(&self) -> (b: bool)
        ensures
            !b,
    {
        false
    }

    fn display_name(&self) -> (s: &'static str)
        ensures
            s@ == "Available"@,
    {
        "Available"
    }

    open spec fn assignments(&self) -> nat {
        0
    }

    fn assignment_count(&self) -> (n: usize) {
        0
    }
}

impl ResourceState for Assigned {
    fn can_assign(&self) -> (b: bool)
        ensures
            b,
    {
        true
    }

    fn can_deactivate(&self) -> (b: bool)
        ensures
            b,
    {
        true
    }

    fn can_reactivate(&self) -> (b: bool)
        ensures
            !b,
    {
        false
    }

    fn display_name(&self) -> (s: &'static str)
        ensures
            s@ == "Assigned"@,
    {
        "Assigned"
    }

    open spec fn assignments(&self) -> nat {
        self.project_assignments@.len()
    }

    fn assignment_count(&self) -> (n: usize) {
        self.project_assignments.len()
    }
}

impl ResourceState for Inactive {
    fn can_assign(&self) -> (b: bool)
        ensures
            !b,
    {
        false
    }

    fn can_deactivate(&self) -> (b: bool)
        ensures
            !b,
    {
        false
    }

    fn can_reactivate(&self) -> (b: bool)
        ensures
            b,
    {
        true
    }

    fn display_name(&self) -> (s: &'static str)
        ensures
            s@ == "Inactive"@,
    {
        "Inactive"
    }

    open spec fn assignments(&self) -> nat {
        0
    }

    fn assignment_count(&self) -> (n: usize) {
        0
    }
}

/// The move of a resource state to the next one.
pub trait StateTransition {
    /// The state that follows.
    type NextState: ResourceState;

    /// Moves to the next state, or tells why the move is refused.
    fn transition_to(self) -> Result<Self::NextState, String>;

    /// Why the move is refused, if it is.
    fn transition_blocked_reason(&self) -> Option<String>;
}

impl StateTransition for Available {
    type NextState = Assigned;

    fn transition_to(self) -> (r: Result<Assigned, String>)
        ensures
            r matches Ok(a) && a.project_assignments@.len() == 0,
    {
        Ok(Assigned { project_assignments: Vec::new() })
    }

    fn transition_blocked_reason(&self) -> (r: Option<String>)
        ensures
            r is None,
    {
        None
    }
}

impl StateTransition for Assigned {
    type NextState = Inactive;

    /// An assigned resource becomes inactive only once it holds no project assignment.
    fn transition_to(self) -> (r: Result<Inactive, String>)
        ensures
            self.project_assignments@.len() == 0 ==> r is Ok,
            self.project_assignments@.len() > 0 ==> (r matches Err(m)
                && m@ == "Cannot deactivate resource with active project assignments"@),
    {
        if self.project_assignments.len() == 0 {
            Ok(Inactive)
        } else {
            Err(String::from_str("Cannot deactivate resource with active project assignments"))
        }
    }

    fn transition_blocked_reason(&self) -> (r: Option<String>)
        ensures
            self.project_assignments@.len() == 0 ==> r is None,
            self.project_assignments@.len() > 0 ==> (r matches Some(m)
                && m@ == "Resource has active project assignments"@),
    {
        if self.project_assignments.len() != 0 {
            Some(String::from_str("Resource has active project assignments"))
        } else {
            None
        }
    }
}

impl StateTransition for Inactive {
    type NextState = Available;

    fn transition_to(self) -> (r: Result<Available, String>)
        ensures
            r is Ok,
    {
        Ok(Available)
    }

    fn transition_blocked_reason(&self) -> (r: Option<String>)
        ensures
            r is None,
    {
        None
    }
}

/// Measures of how busy a resource is, from its number of project assignments.
pub trait ResourceStateExt: ResourceState {
    /// Whether the resource holds more than `max_assignments` assignments.
    fn is_overloaded(&self, max_assignments: usize) -> (b: bool)
        ensures
            b == (self.assignments() > max_assignments),
    {
        self.assignment_count() > max_assignments
    }

    /// Whether the resource holds fewer than `min_assignments` assignments.
    fn is_underutilized(&self, min_assignments: usize) -> (b: bool)
        ensures
            b == (self.assignments() < min_assignments),
    {
        self.assignment_count() < min_assignments
    }
}

impl<T: ResourceState> ResourceStateExt for T {}

} // verus!
