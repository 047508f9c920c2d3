//! A task-level pipeline handle.

use vstd::prelude::*;

verus! {

/// A pipeline over one task description.
pub struct Pipeline {
    /// What should be accomplished.
    pub task: String,
}

impl Pipeline {
    /// A pipeline for the given task.
    pub fn new(task: &str) -> (r: Pipeline)
        ensures
            r.task@ == task@,
    {
        Pipeline { task: task.to_owned() }
    }
}

/// What a completed pipeline reports.
pub struct PipelineResult {
    /// How many steps ran to completion.
    pub steps_completed: usize,
    /// Whether every step succeeded.
    pub successful: bool,
}

impl PipelineResult {
    /// How many steps ran to completion.
    pub fn steps_completed(&self) -> (r: usize)
        ensures
            r == self.steps_completed,
    {
        self.steps_completed
    }

    /// Whether every step succeeded.
    pub fn was_successful(&self) -> (r: bool)
        ensures
            r == self.successful,
    {
        self.successful
    }
}

} // verus!
