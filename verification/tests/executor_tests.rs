use flow::config::{ContextMode, CycleConfig, FlowConfig, GlobalConfig};
use flow::driver::{breaker_update, run_stream};
use flow::executor::{build_cycle_result, CycleExecutor, CycleResult, StepTotals};
use flow::stream::{StreamAccumulator, StreamEvent};
use flow::json::Json;

fn make_cycle(name: &str, prompt: &str, context: ContextMode, perms: &[&str]) -> CycleConfig {
    CycleConfig {
        name: name.to_string(),
        description: name.to_string(),
        prompt: prompt.to_string(),
        permissions: perms.iter().map(|s| s.to_string()).collect(),
        after: vec![],
        context,
        min_interval: None,
        max_turns: None,
        max_cost_micros: None,
        steps: vec![],
    }
}

fn test_config() -> FlowConfig {
    FlowConfig {
        global: GlobalConfig {
            permissions: vec!["Read".to_string(), "Edit(./src/**)".to_string()],
            max_permission_denials: 10,
            circuit_breaker_repeated: 5,
            max_consecutive_failures: 3,
            summary_interval: 5,
            vars: vec![],
        },
        selector: None,
        cycles: vec![
            make_cycle(
                "coding",
                "You are the coding cycle.",
                ContextMode::Summaries,
                &["Edit(./tests/**)", "Bash(cargo test *)"],
            ),
            make_cycle("review", "You are the review cycle.", ContextMode::NoContext, &[]),
        ],
    }
}

fn err_result() -> StreamEvent {
    StreamEvent::ToolResult { is_error: true, content: "denied".to_string() }
}

fn ok_text(t: &str) -> StreamEvent {
    StreamEvent::AssistantText { text: t.to_string() }
}

#[test]
fn test_new_creates_executor() {
    let _executor = CycleExecutor::new(test_config());
}

#[test]
fn test_prepare_rejects_unknown_cycle() {
    let executor = CycleExecutor::new(test_config());
    assert!(executor.prepare("nonexistent").is_err());
}

#[test]
fn test_prepare_returns_cycle_name() {
    let executor = CycleExecutor::new(test_config());
    let prepared = executor.prepare("coding").unwrap();
    assert_eq!(prepared.cycle_name, "coding");
}

#[test]
fn test_prepare_returns_cycle_prompt_with_context_injected() {
    let executor = CycleExecutor::new(test_config());
    let prepared = executor.prepare("coding").unwrap();
    assert!(prepared.prompt.contains("You are the coding cycle."));
    assert!(prepared.prompt.contains("Previous Iteration Summaries"));
}

#[test]
fn test_prepare_none_context_returns_raw_prompt() {
    let executor = CycleExecutor::new(test_config());
    let prepared = executor.prepare("review").unwrap();
    assert_eq!(prepared.prompt, "You are the review cycle.");
}

#[test]
fn test_prepare_resolves_permissions_merging_global_and_cycle() {
    let executor = CycleExecutor::new(test_config());
    let prepared = executor.prepare("coding").unwrap();
    assert_eq!(
        prepared.permissions,
        vec!["Read", "Edit(./src/**)", "Edit(./tests/**)", "Bash(cargo test *)"]
    );
}

#[test]
fn test_prepare_review_gets_only_global_permissions() {
    let executor = CycleExecutor::new(test_config());
    let prepared = executor.prepare("review").unwrap();
    assert_eq!(prepared.permissions, vec!["Read", "Edit(./src/**)"]);
}

#[test]
fn test_build_cycle_result_with_result_event() {
    let mut acc = StreamAccumulator::new();
    acc.process(&StreamEvent::ToolUse {
        tool_name: "Edit".to_string(),
        input: Json::Obj(vec![("file_path".chars().collect(), Json::Str("src/main.rs".chars().collect()))]),
    });
    acc.process(&StreamEvent::ToolResult {
        is_error: false,
        content: "test result: ok. 10 passed; 0 failed; 0 ignored".to_string(),
    });
    acc.process(&StreamEvent::Result {
        is_error: false,
        result_text: "Implemented feature".to_string(),
        num_turns: 5,
        total_cost_micros: 1_230_000,
        duration_ms: 30000,
        permission_denials: vec!["Bash".to_string()],
    });
    let result = build_cycle_result("coding".to_string(), Some(0), String::new(), 120, &acc);
    assert_eq!(result.cycle_name, "coding");
    assert!(result.success);
    assert_eq!(result.exit_code, Some(0));
    assert_eq!(result.duration_secs, 120);
    assert_eq!(result.result_text.as_deref(), Some("Implemented feature"));
    assert_eq!(result.num_turns, Some(5));
    assert_eq!(result.total_cost_micros, Some(1_230_000));
    assert_eq!(result.permission_denial_count, Some(1));
    assert_eq!(result.permission_denials, Some(vec!["Bash".to_string()]));
    assert_eq!(result.files_changed, vec!["src/main.rs"]);
    assert_eq!(result.tests_passed, 10);
}

#[test]
fn test_build_cycle_result_without_result_event() {
    let acc = StreamAccumulator::new();
    let result = build_cycle_result("coding".to_string(), Some(1), "error output".to_string(), 30, &acc);
    assert!(!result.success);
    assert_eq!(result.exit_code, Some(1));
    assert_eq!(result.stderr, "error output");
    assert!(result.result_text.is_none());
    assert!(result.num_turns.is_none());
    assert!(result.total_cost_micros.is_none());
    assert!(result.permission_denial_count.is_none());
    assert!(result.permission_denials.is_none());
    assert!(result.files_changed.is_empty());
    assert_eq!(result.tests_passed, 0);
}

#[test]
fn test_build_cycle_result_empty_denials_become_none() {
    let mut acc = StreamAccumulator::new();
    acc.process(&StreamEvent::Result {
        is_error: false,
        result_text: "Done".to_string(),
        num_turns: 3,
        total_cost_micros: 500_000,
        duration_ms: 10000,
        permission_denials: vec![],
    });
    let result = build_cycle_result("review".to_string(), Some(0), String::new(), 10, &acc);
    assert!(result.permission_denials.is_none());
    assert_eq!(result.permission_denial_count, Some(0));
}

#[test]
fn test_step_totals_aggregate_two_steps() {
    let mut totals = StepTotals::new();
    let mut acc1 = StreamAccumulator::new();
    acc1.process(&StreamEvent::ToolUse {
        tool_name: "Edit".to_string(),
        input: Json::Obj(vec![("file_path".chars().collect(), Json::Str("a.rs".chars().collect()))]),
    });
    acc1.process(&StreamEvent::Result {
        is_error: false,
        result_text: "step one done".to_string(),
        num_turns: 2,
        total_cost_micros: 100,
        duration_ms: 1000,
        permission_denials: vec!["Edit".to_string()],
    });
    totals.absorb(&acc1, "warning-one", Some(0), 10);
    let mut acc2 = StreamAccumulator::new();
    acc2.process(&StreamEvent::ToolUse {
        tool_name: "Write".to_string(),
        input: Json::Obj(vec![("file_path".chars().collect(), Json::Str("a.rs".chars().collect()))]),
    });
    acc2.process(&StreamEvent::ToolUse {
        tool_name: "Write".to_string(),
        input: Json::Obj(vec![("file_path".chars().collect(), Json::Str("b.rs".chars().collect()))]),
    });
    acc2.process(&StreamEvent::Result {
        is_error: false,
        result_text: "step two done".to_string(),
        num_turns: 3,
        total_cost_micros: 250,
        duration_ms: 2000,
        permission_denials: vec![],
    });
    totals.absorb(&acc2, "warning-two", Some(0), 32);
    let result = totals.into_result("coding".to_string());
    assert!(result.success);
    assert_eq!(result.duration_secs, 42);
    assert_eq!(result.num_turns, Some(5));
    assert_eq!(result.total_cost_micros, Some(350));
    assert_eq!(result.permission_denial_count, Some(1));
    assert_eq!(result.permission_denials, Some(vec!["Edit".to_string()]));
    assert_eq!(result.files_changed, vec!["a.rs", "b.rs"]);
    assert_eq!(result.result_text.as_deref(), Some("step two done"));
    assert_eq!(result.stderr, "warning-one\nwarning-two");
}

#[test]
fn test_step_totals_failed_last_step() {
    let mut totals = StepTotals::new();
    let acc = StreamAccumulator::new();
    totals.absorb(&acc, "", Some(2), 5);
    let result = totals.into_result("coding".to_string());
    assert!(!result.success);
    assert_eq!(result.exit_code, Some(2));
    assert!(result.num_turns.is_none());
    assert!(result.total_cost_micros.is_none());
}

#[test]
fn test_breaker_counts_and_resets() {
    let (c, fired) = breaker_update(0, &err_result(), 3);
    assert_eq!(c, 1);
    assert!(!fired);
    let (c, fired) = breaker_update(c, &err_result(), 3);
    assert_eq!(c, 2);
    assert!(!fired);
    let (c, fired) = breaker_update(
        c,
        &StreamEvent::ToolUse { tool_name: "Edit".to_string(), input: Json::Null },
        3,
    );
    assert_eq!(c, 0);
    assert!(!fired);
}

#[test]
fn test_breaker_disabled_when_threshold_zero() {
    let (_, fired) = breaker_update(1000, &err_result(), 0);
    assert!(!fired);
}

#[test]
fn test_circuit_breaker_kills_after_threshold() {
    let events = vec![
        StreamEvent::ToolUse { tool_name: "Edit".to_string(), input: Json::Null },
        err_result(),
        err_result(),
        err_result(),
        ok_text("late text"),
    ];
    let (acc, processed, killed) = run_stream(&events, 3);
    assert!(killed);
    assert_eq!(processed, 4);
    assert_eq!(acc.tool_errors.len(), 3);
    assert!(acc.text_fragments.is_empty());
}

#[test]
fn test_stream_without_breaker_processes_everything() {
    let events = vec![err_result(), err_result(), ok_text("hello")];
    let (acc, processed, killed) = run_stream(&events, 0);
    assert!(!killed);
    assert_eq!(processed, 3);
    assert_eq!(acc.tool_errors.len(), 2);
    assert_eq!(acc.text_fragments, vec!["hello"]);
}

#[test]
fn test_successful_result_resets_breaker() {
    let events = vec![
        err_result(),
        err_result(),
        StreamEvent::ToolResult { is_error: false, content: "ok".to_string() },
        err_result(),
        err_result(),
    ];
    let (_, processed, killed) = run_stream(&events, 3);
    assert!(!killed);
    assert_eq!(processed, 5);
}

fn make_log_entry(iteration: u32, cycle: &str, outcome: &str) -> flow::outcome::CycleOutcome {
    flow::outcome::CycleOutcome {
        iteration,
        cycle: cycle.to_string(),
        timestamp: "2026-01-15T10:00:00Z".to_string(),
        outcome: outcome.to_string(),
        files_changed: vec![],
        tests_passed: 0,
        duration_secs: 60,
        num_turns: None,
        total_cost_micros: None,
        permission_denial_count: None,
        permission_denials: None,
        steps: None,
    }
}

#[test]
fn test_prepare_with_context_injects_summaries() {
    let executor = CycleExecutor::new(test_config());
    let log = vec![make_log_entry(1, "review", "Code looked good")];
    let prepared = executor.prepare_with_context("coding", &log).unwrap();
    assert!(prepared.prompt.contains("Code looked good"));
    assert!(prepared.prompt.contains("You are the coding cycle."));
}

#[test]
fn test_prepare_with_context_none_mode_ignores_log() {
    let executor = CycleExecutor::new(test_config());
    let log = vec![make_log_entry(1, "coding", "Implemented something")];
    let prepared = executor.prepare_with_context("review", &log).unwrap();
    assert_eq!(prepared.prompt, "You are the review cycle.");
}

#[test]
fn test_prepare_with_context_rejects_unknown_cycle() {
    let executor = CycleExecutor::new(test_config());
    assert!(executor.prepare_with_context("nonexistent", &Vec::new()).is_err());
}

#[test]
fn test_pipeline_creation() {
    let pipeline = flow::Pipeline::new("test task");
    assert_eq!(pipeline.task, "test task");
}

#[test]
fn test_cycle_result_optional_fields_default_to_none() {
    let result = CycleResult {
        cycle_name: "test".to_string(),
        success: true,
        exit_code: Some(0),
        stderr: String::new(),
        duration_secs: 0,
        result_text: None,
        num_turns: None,
        total_cost_micros: None,
        permission_denial_count: None,
        permission_denials: None,
        files_changed: vec![],
        tests_passed: 0,
    };
    assert!(result.result_text.is_none());
    assert!(result.num_turns.is_none());
    assert!(result.total_cost_micros.is_none());
    assert!(result.permission_denial_count.is_none());
    assert!(result.files_changed.is_empty());
    assert_eq!(result.tests_passed, 0);
}

#[test]
fn test_cycle_result_optional_fields_with_values() {
    let result = CycleResult {
        cycle_name: "coding".to_string(),
        success: true,
        exit_code: Some(0),
        stderr: String::new(),
        duration_secs: 120,
        result_text: Some("Implemented feature X".to_string()),
        num_turns: Some(53),
        total_cost_micros: Some(2_150_000),
        permission_denial_count: Some(3),
        permission_denials: Some(vec!["Edit".to_string(), "Bash".to_string(), "Edit".to_string()]),
        files_changed: vec!["src/main.rs".to_string(), "src/lib.rs".to_string()],
        tests_passed: 42,
    };
    assert_eq!(result.result_text.as_deref(), Some("Implemented feature X"));
    assert_eq!(result.num_turns, Some(53));
    assert_eq!(result.total_cost_micros, Some(2_150_000));
    assert_eq!(result.permission_denial_count, Some(3));
    assert_eq!(result.permission_denials.as_ref().unwrap().len(), 3);
    assert_eq!(result.files_changed, vec!["src/main.rs", "src/lib.rs"]);
    assert_eq!(result.tests_passed, 42);
}

#[test]
fn test_is_multi_step_cycle_true_for_multi_step() {
    let mut cycle = make_cycle("coding", "", ContextMode::NoContext, &[]);
    cycle.steps = vec![flow::config::StepConfig {
        name: "plan".to_string(),
        session: Some("architect".to_string()),
        prompt: "Plan.".to_string(),
        permissions: vec![],
        router: flow::config::StepRouter::Sequential,
        max_visits: 3,
        max_turns: None,
        max_cost_micros: None,
    }];
    assert!(cycle.is_multi_step());
}

#[test]
fn test_is_multi_step_cycle_false_for_single_step() {
    let cycle = make_cycle("coding", "Code", ContextMode::NoContext, &[]);
    assert!(!cycle.is_multi_step());
}
