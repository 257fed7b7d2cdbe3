//! States and edits of an entry in a to-do list.
use vstd::prelude::*;

verus! {

/// Whether an entry is being edited.
#[derive(Debug, Clone, Copy, PartialEq, Eq, Structural)]
pub enum TaskState {
    Idle,
    Editing,
}

impl Default for TaskState {
    fn default() -> (r: TaskState)
        ensures
            r == TaskState::Idle,
    {
        TaskState::Idle
    }
}

/// An edit of an entry.
#[derive(Debug, Clone)]
pub enum TaskMessage {
    Completed(bool),
    Edit,
    DescriptionEdited(String),
    FinishEdition,
    Delete,
}

} // verus!
