use flow::config::{ContextMode, CycleConfig, FlowConfig, GlobalConfig};
use flow::outcome::CycleOutcome;
use flow::selector::{
    build_selector_prompt, format_log_summary, format_todo_summary, parse_selection,
    parse_todo_tasks, summarize_log, TodoTask,
};

fn make_outcome(iteration: u32, cycle: &str, outcome: &str, cost: Option<u64>) -> CycleOutcome {
    CycleOutcome {
        iteration,
        cycle: cycle.to_string(),
        timestamp: "2026-01-15T10:00:00Z".to_string(),
        outcome: outcome.to_string(),
        files_changed: vec![],
        tests_passed: 0,
        duration_secs: 120,
        num_turns: Some(30),
        total_cost_micros: cost,
        permission_denial_count: None,
        permission_denials: None,
        steps: None,
    }
}

fn make_config(cycle_names: &[&str]) -> FlowConfig {
    FlowConfig {
        global: GlobalConfig {
            permissions: vec![],
            max_permission_denials: 10,
            circuit_breaker_repeated: 5,
            max_consecutive_failures: 3,
            summary_interval: 5,
            vars: vec![],
        },
        selector: None,
        cycles: cycle_names
            .iter()
            .map(|name| CycleConfig {
                name: name.to_string(),
                description: name.to_string(),
                prompt: name.to_string(),
                permissions: vec![],
                after: vec![],
                context: ContextMode::NoContext,
                min_interval: None,
                max_turns: None,
                max_cost_micros: None,
                steps: vec![],
            })
            .collect(),
    }
}

fn count_of(list: &[(String, u32)], key: &str) -> Option<u32> {
    list.iter().find(|(k, _)| k == key).map(|(_, v)| *v)
}

#[test]
fn test_summarize_empty_log() {
    let summary = summarize_log(&Vec::new(), 5);
    assert_eq!(summary.total_iterations, 0);
    assert!(summary.cycle_counts.is_empty());
    assert!(summary.recent_outcomes.is_empty());
    assert_eq!(summary.total_cost_micros, 0);
}

#[test]
fn test_summarize_single_entry() {
    let log = vec![make_outcome(1, "coding", "Implemented feature", Some(2_000_000))];
    let summary = summarize_log(&log, 5);
    assert_eq!(summary.total_iterations, 1);
    assert_eq!(count_of(&summary.cycle_counts, "coding"), Some(1));
    assert_eq!(summary.total_cost_micros, 2_000_000);
    assert_eq!(summary.recent_outcomes.len(), 1);
    assert!(summary.recent_outcomes[0].success);
}

#[test]
fn test_summarize_multiple_cycles() {
    let log = vec![
        make_outcome(1, "coding", "Implemented feature", Some(2_000_000)),
        make_outcome(2, "gardening", "Cleaned up code", Some(1_500_000)),
        make_outcome(3, "coding", "Added tests", Some(1_800_000)),
    ];
    let summary = summarize_log(&log, 5);
    assert_eq!(summary.total_iterations, 3);
    assert_eq!(count_of(&summary.cycle_counts, "coding"), Some(2));
    assert_eq!(count_of(&summary.cycle_counts, "gardening"), Some(1));
    assert_eq!(summary.total_cost_micros, 5_300_000);
}

#[test]
fn test_summarize_tracks_failures() {
    let log = vec![
        make_outcome(1, "coding", "Implemented feature", Some(2_000_000)),
        make_outcome(2, "coding", "Failed with exit code 1", Some(500_000)),
    ];
    let summary = summarize_log(&log, 5);
    assert_eq!(count_of(&summary.cycle_counts, "coding"), Some(2));
    assert_eq!(count_of(&summary.cycle_success_counts, "coding"), Some(1));
}

#[test]
fn test_summarize_recent_outcomes_limited() {
    let log: Vec<CycleOutcome> = (1..=10)
        .map(|i| make_outcome(i, "coding", &format!("Task {}", i), Some(1_000_000)))
        .collect();
    let summary = summarize_log(&log, 3);
    assert_eq!(summary.recent_outcomes.len(), 3);
    assert_eq!(summary.recent_outcomes[0].iteration, 10);
    assert_eq!(summary.recent_outcomes[1].iteration, 9);
    assert_eq!(summary.recent_outcomes[2].iteration, 8);
}

#[test]
fn test_summarize_cost_with_none_values() {
    let log = vec![
        make_outcome(1, "coding", "done", Some(2_000_000)),
        make_outcome(2, "coding", "done", None),
    ];
    let summary = summarize_log(&log, 5);
    assert_eq!(summary.total_cost_micros, 2_000_000);
}

#[test]
fn test_format_empty_summary() {
    let summary = summarize_log(&Vec::new(), 5);
    let config = make_config(&["coding", "gardening"]);
    let formatted = format_log_summary(&summary, &config);
    assert!(formatted.contains("Total iterations: 0"));
    assert!(formatted.contains("coding=0"));
    assert!(formatted.contains("gardening=0"));
}

#[test]
fn test_format_summary_shows_balance() {
    let log = vec![
        make_outcome(1, "coding", "done", Some(2_000_000)),
        make_outcome(2, "coding", "done", Some(1_500_000)),
        make_outcome(3, "gardening", "done", Some(1_000_000)),
    ];
    let summary = summarize_log(&log, 5);
    let config = make_config(&["coding", "gardening", "review"]);
    let formatted = format_log_summary(&summary, &config);
    assert!(formatted.contains("coding=2"));
    assert!(formatted.contains("gardening=1"));
    assert!(formatted.contains("review=0"));
    assert!(formatted.contains("Total cost: $4.50"));
}

#[test]
fn test_format_summary_shows_recent() {
    let log = vec![
        make_outcome(1, "coding", "Implemented feature X", Some(2_000_000)),
        make_outcome(2, "coding", "Failed with exit code 1", Some(500_000)),
    ];
    let summary = summarize_log(&log, 5);
    let config = make_config(&["coding"]);
    let formatted = format_log_summary(&summary, &config);
    assert!(formatted.contains("[FAIL]"));
    assert!(formatted.contains("[ok]"));
    assert!(formatted.contains("Implemented feature X"));
}

#[test]
fn test_parse_todo_empty() {
    let tasks = parse_todo_tasks("");
    assert!(tasks.is_empty());
}

#[test]
fn test_parse_todo_pending_with_priority() {
    let content = "\n- [ ] Implement cycle selector\n  - Priority: P0\n";
    let tasks = parse_todo_tasks(content);
    assert_eq!(tasks.len(), 1);
    assert_eq!(tasks[0].priority, "P0");
    assert_eq!(tasks[0].description, "Implement cycle selector");
}

#[test]
fn test_parse_todo_ignores_completed() {
    let content = "\n- [x] Already done task\n  - Priority: P0\n\n- [ ] Still pending task\n  - Priority: P1\n";
    let tasks = parse_todo_tasks(content);
    assert_eq!(tasks.len(), 1);
    assert_eq!(tasks[0].description, "Still pending task");
    assert_eq!(tasks[0].priority, "P1");
}

#[test]
fn test_parse_todo_multiple_priorities() {
    let content = "\n- [ ] Critical task\n  - Priority: P0\n\n- [ ] Important task\n  - Priority: P1\n\n- [ ] Nice to have\n  - Priority: P2\n";
    let tasks = parse_todo_tasks(content);
    assert_eq!(tasks.len(), 3);
    assert_eq!(tasks[0].priority, "P0");
    assert_eq!(tasks[1].priority, "P1");
    assert_eq!(tasks[2].priority, "P2");
}

#[test]
fn test_parse_todo_no_priority_skipped() {
    let content = "\n- [ ] Task without priority info\n\n- [ ] Task with priority\n  - Priority: P0\n";
    let tasks = parse_todo_tasks(content);
    assert_eq!(tasks.len(), 1);
    assert_eq!(tasks[0].description, "Task with priority");
}

#[test]
fn test_format_todo_summary_empty() {
    let formatted = format_todo_summary(&Vec::new());
    assert_eq!(formatted, "No pending tasks found in TODO.md");
}

#[test]
fn test_format_todo_summary_grouped() {
    let tasks = vec![
        TodoTask { priority: "P0".to_string(), description: "Critical thing".to_string() },
        TodoTask { priority: "P1".to_string(), description: "Less critical".to_string() },
        TodoTask { priority: "P0".to_string(), description: "Another critical".to_string() },
    ];
    let formatted = format_todo_summary(&tasks);
    assert!(formatted.contains("P0: 2 task(s)"));
    assert!(formatted.contains("P1: 1 task(s)"));
    assert!(formatted.contains("Critical thing"));
}

#[test]
fn test_build_selector_prompt_includes_cycles() {
    let config = make_config(&["coding", "gardening"]);
    let prompt = build_selector_prompt(&config, &Vec::new(), "");
    assert!(prompt.contains("coding"));
    assert!(prompt.contains("gardening"));
    assert!(prompt.contains("cycle selector"));
}

#[test]
fn test_build_selector_prompt_includes_log_context() {
    let config = make_config(&["coding"]);
    let log = vec![make_outcome(1, "coding", "Implemented feature", Some(2_000_000))];
    let prompt = build_selector_prompt(&config, &log, "");
    assert!(prompt.contains("Total iterations: 1"));
    assert!(prompt.contains("coding=1"));
}

#[test]
fn test_build_selector_prompt_includes_todo_context() {
    let config = make_config(&["coding"]);
    let todo = "- [ ] Fix the bug\n  - Priority: P0\n";
    let prompt = build_selector_prompt(&config, &Vec::new(), todo);
    assert!(prompt.contains("P0: 1 task(s)"));
    assert!(prompt.contains("Fix the bug"));
}

#[test]
fn test_parse_selection_valid_json() {
    let config = make_config(&["coding", "gardening"]);
    let response = r#"{"cycle": "coding", "reason": "P0 tasks pending"}"#;
    let selection = parse_selection(response, &config).unwrap();
    assert_eq!(selection.cycle, "coding");
    assert_eq!(selection.reason, "P0 tasks pending");
}

#[test]
fn test_parse_selection_json_with_surrounding_text() {
    let config = make_config(&["coding", "gardening"]);
    let response = "Here is my selection:\n{\"cycle\": \"gardening\", \"reason\": \"Hasn't run recently\"}\nDone.";
    let selection = parse_selection(response, &config).unwrap();
    assert_eq!(selection.cycle, "gardening");
}

#[test]
fn test_parse_selection_invalid_cycle_falls_back() {
    let config = make_config(&["coding", "gardening"]);
    let response = r#"{"cycle": "nonexistent", "reason": "test"}"#;
    let selection = parse_selection(response, &config);
    assert!(selection.is_none());
}

#[test]
fn test_parse_selection_fallback_to_text_match() {
    let config = make_config(&["coding", "gardening"]);
    let response = "I think we should run the gardening cycle next.";
    let selection = parse_selection(response, &config).unwrap();
    assert_eq!(selection.cycle, "gardening");
}

#[test]
fn test_parse_selection_no_match_returns_none() {
    let config = make_config(&["coding", "gardening"]);
    let response = "Nothing of use in this text.";
    assert!(parse_selection(response, &config).is_none());
}

#[test]
fn test_parse_selection_prefers_json_over_text() {
    let config = make_config(&["coding", "gardening"]);
    let response = "Let me suggest coding.\n{\"cycle\": \"gardening\", \"reason\": \"Balance\"}\n";
    let selection = parse_selection(response, &config).unwrap();
    assert_eq!(selection.cycle, "gardening");
}
