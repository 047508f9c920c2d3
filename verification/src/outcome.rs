//! The history-log record: one entry per cycle execution.

use vstd::prelude::*;

verus! {

/// Per-step breakdown inside a multi-step cycle's record.
pub struct StepOutcome {
    /// Step name.
    pub name: String,
    /// Session tag used by the step, if any.
    pub session: Option<String>,
    /// Step duration in seconds.
    pub duration_secs: u64,
    /// Conversation turns, when known.
    pub num_turns: Option<u32>,
    /// Step cost in micro-dollars, when known.
    pub cost_micros: Option<u64>,
}

/// One record of the append-only history log.
pub struct CycleOutcome {
    /// Iteration number, starting at one within a run.
    pub iteration: u32,
    /// Name of the executed cycle.
    pub cycle: String,
    /// Completion timestamp, ISO-8601 UTC.
    pub timestamp: String,
    /// Human-readable outcome text.
    pub outcome: String,
    /// Files changed, first-seen order, no duplicates.
    pub files_changed: Vec<String>,
    /// Tests seen passing.
    pub tests_passed: u32,
    /// Duration in seconds.
    pub duration_secs: u64,
    /// Conversation turns, when known.
    pub num_turns: Option<u32>,
    /// Cost in micro-dollars, when known.
    pub total_cost_micros: Option<u64>,
    /// How many permission denials occurred, when known.
    pub permission_denial_count: Option<u32>,
    /// The denied tool names, when any.
    pub permission_denials: Option<Vec<String>>,
    /// Per-step breakdown for multi-step cycles.
    pub steps: Option<Vec<StepOutcome>>,
}

/// An outcome counts as failed when its text starts with `Failed`.
pub open spec fn spec_outcome_failed(o: CycleOutcome) -> bool {
    crate::text::spec_starts_with(o.outcome@, "Failed"@)
}

} // verus!
