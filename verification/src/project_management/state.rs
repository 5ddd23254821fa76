//! The states of a project as types, and the moves between them.

use vstd::prelude::*;

verus! {

/// What every project state tells.
pub trait ProjectState: Sized {
    /// Whether a project in this state can be started.
    fn can_start(&self) -> bool;

    /// Whether a project in this state can be completed.
    fn can_complete(&self) -> bool;

    /// Whether a project in this state can be cancelled.
    fn can_cancel(&self) -> bool;

    /// The readable name of the state.
    fn display_name(&self) -> &'static str;
}

/// A project that is planned and not started.
#[derive(Debug, Clone, Copy, PartialEq, Eq)]
pub struct Planned;

/// A project that is running.
#[derive(Debug, Clone, Copy, PartialEq, Eq)]
pub struct InProgress;

/// A project that is completed.
#[derive(Debug, Clone, Copy, PartialEq, Eq)]
pub struct Completed;

/// A project that is cancelled.
#[derive(Debug, Clone, Copy, PartialEq, Eq)]
pub struct Cancelled;

impl ProjectState for Planned {
    fn can_start(&self) -> (b: bool)
        ensures
            b,
    {
        true
    }

    fn can_complete(&self) -> (b: bool)
        ensures
            !b,
    {
        false
    }

    fn can_cancel(&self) -> (b: bool)
        ensures
            b,
    {
        true
    }

    fn display_name(&self) -> (s: &'static str)
        ensures
            s@ == "Planned"@,
    {
        "Planned"
    }
}

impl ProjectState for InProgress {
    fn can_start(&self) -> (b: bool)
        ensures
            !b,
    {
        false
    }

    fn can_complete(&self) -> (b: bool)
        ensures
            b,
    {
        true
    }

    fn can_cancel(&self) -> (b: bool)
        ensures
            b,
    {
        true
    }

    fn display_name(&self) -> (s: &'static str)
        ensures
            s@ == "In Progress"@,
    {
        "In Progress"
    }
}

impl ProjectState for Completed {
    fn can_start(&self) -> (b: bool)
        ensures
            !b,
    {
        false
    }

    fn can_complete(&self) -> (b: bool)
        ensures
            !b,
    {
        false
    }

    fn can_cancel(&self) -> (b: bool)
        ensures
            !b,
    {
        false
    }

    fn display_name(&self) -> (s: &'static str)
        ensures
            s@ == "Completed"@,
    {
        "Completed"
    }
}

impl ProjectState for Cancelled {
    fn can_start(&self) -> (b: bool)
        ensures
            !b,
    {
        false
    }

    fn can_complete(&self) -> (b: bool)
        ensures
            !b,
    {
        false
    }

    fn can_cancel(&self) -> (b: bool)
        ensures
            !b,
    {
        false
    }

    fn display_name(&self) -> (s: &'static str)
        ensures
            s@ == "Cancelled"@,
    {
        "Cancelled"
    }
}

/// The move of a project state to the next one.
pub trait StateTransition {
    /// The state that follows.
    type NextState: ProjectState;

    /// Moves to the next state, or tells why the move is refused.
    fn transition_to(self) -> Result<Self::NextState, String>;

    /// Why the move is refused, if it is.
    fn transition_blocked_reason(&self) -> Option<String>;
}

impl StateTransition for Planned {
    type NextState = InProgress;

    fn transition_to(self) -> (r: Result<InProgress, String>)
        ensures
            r is Ok,
    {
        Ok(InProgress)
    }

    fn transition_blocked_reason(&self) -> (r: Option<String>)
        ensures
            r is None,
    {
        None
    }
}

impl StateTransition for InProgress {
    type NextState = Completed;

    fn transition_to(self) -> (r: Result<Completed, String>)
        ensures
            r is Ok,
    {
        Ok(Completed)
    }

    fn transition_blocked_reason(&self) -> (r: Option<String>)
        ensures
            r is None,
    {
        None
    }
}

impl StateTransition for Completed {
    type NextState = InProgress;

    fn transition_to(self) -> (r: Result<InProgress, String>)
        ensures
            r matches Err(m) && m@ == "Completed projects cannot transition to other states"@,
    {
        Err(String::from_str("Completed projects cannot transition to other states"))
    }

    fn transition_blocked_reason(&self) -> (r: Option<String>)
        ensures
            r matches Some(m) && m@ == "Completed projects cannot transition to other states"@,
    {
        Some(String::from_str("Completed projects cannot transition to other states"))
    }
}

impl StateTransition for Cancelled {
    type NextState = Planned;

    fn transition_to(self) -> (r: Result<Planned, String>)
        ensures
            r matches Err(m) && m@ == "Cancelled projects cannot transition to other states"@,
    {
        Err(String::from_str("Cancelled projects cannot transition to other states"))
    }

    fn transition_blocked_reason(&self) -> (r: Option<String>)
        ensures
            r matches Some(m) && m@ == "Cancelled projects cannot transition to other states"@,
    {
        Some(String::from_str("Cancelled projects cannot transition to other states"))
    }
}

} // verus!
