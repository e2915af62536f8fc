//! Progress states of a task.

use vstd::prelude::*;

verus! {

/// How far a task has come. A task starts `Pending`; a quest counts as done
/// only when each of its tasks is `Completed`.
#[derive(Clone, Copy, Debug, PartialEq, Eq, Structural)]
pub enum Status {
    Pending,
    InProgress,
    Completed,
    Failed,
}

impl Status {
    /// Whether this is the `Completed` state.
    pub fn is_completed(&self) -> (done: bool)
        ensures
            done == (*self == Status::Completed),
    {
        match self {
            Status::Completed => true,
            _ => false,
        }
    }
}

} // verus!
