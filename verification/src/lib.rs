//! Flow: an orchestrator for an automated code-production loop.
//!
//! The library is the verified execution engine: the event model and parser
//! for the agent's stream output, the per-execution accumulator, the command
//! builder, the session and permission management, the step router, the rules
//! engine, the cycle selector's summaries, the history-log and progress-file
//! codecs, and the run-level gates. File and process I/O live outside the
//! library; everything here is plain computation with contracts. Dollar
//! amounts are carried as integers in millionths of a dollar, and
//! timestamps as text.

#![verifier::loop_isolation(false)]

use vstd::prelude::*;

pub mod cli;
pub mod codec;
pub mod command;
pub mod config;
pub mod context;
pub mod display;
pub mod doctor;
pub mod driver;
pub mod executor;
pub mod json;
pub mod outcome;
pub mod permissions;
pub mod pipeline;
pub mod progress;
pub mod router;
pub mod rules;
pub mod runloop;
pub mod selector;
pub mod session;
pub mod stream;
pub mod template;
pub mod text;

pub use cli::Cli;
pub use codec::{JsonlLogger, ProgressWriter};
pub use command::{build_command, build_command_with_options, build_command_with_session};
pub use config::{CycleConfig, FlowConfig, GlobalConfig, StepConfig, StepRouter};
pub use display::{render_diagnostic_report, render_run_summary, CycleDisplay};
pub use executor::{CycleExecutor, CycleResult, PreparedCycle};
pub use outcome::CycleOutcome;
pub use permissions::{resolve_permissions, resolve_step_permissions};
pub use pipeline::{Pipeline, PipelineResult};
pub use progress::{RunProgress, RunStatus};
pub use rules::find_triggered_cycles;
pub use selector::CycleSelection;
pub use session::SessionManager;
pub use stream::{parse_event, suggest_permission_fix, StreamAccumulator, StreamEvent};

verus! {

} // verus!
