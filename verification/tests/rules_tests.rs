use flow::config::{ContextMode, CycleConfig, FlowConfig, GlobalConfig};
use flow::outcome::CycleOutcome;
use flow::rules::find_triggered_cycles;

fn make_cycle(name: &str, after: &[&str], min_interval: Option<u32>) -> CycleConfig {
    CycleConfig {
        name: name.to_string(),
        description: name.to_string(),
        prompt: name.to_string(),
        permissions: vec![],
        after: after.iter().map(|s| s.to_string()).collect(),
        context: ContextMode::NoContext,
        min_interval,
        max_turns: None,
        max_cost_micros: None,
        steps: vec![],
    }
}

fn make_config(cycles: Vec<CycleConfig>) -> FlowConfig {
    FlowConfig {
        global: GlobalConfig {
            permissions: vec![],
            max_permission_denials: 10,
            circuit_breaker_repeated: 5,
            max_consecutive_failures: 3,
            summary_interval: 5,
            vars: vec![],
        },
        selector: None,
        cycles,
    }
}

fn test_config() -> FlowConfig {
    make_config(vec![
        make_cycle("coding", &[], None),
        make_cycle("gardening", &["coding"], None),
        make_cycle("review", &["coding"], None),
        make_cycle("planning", &[], None),
    ])
}

fn make_log_entry(iteration: u32, cycle: &str) -> CycleOutcome {
    CycleOutcome {
        iteration,
        cycle: cycle.to_string(),
        timestamp: "2026-01-15T10:00:00Z".to_string(),
        outcome: "done".to_string(),
        files_changed: vec![],
        tests_passed: 0,
        duration_secs: 60,
        num_turns: None,
        total_cost_micros: None,
        permission_denial_count: None,
        permission_denials: None,
        steps: None,
    }
}

fn gardening_after_coding_config(min_interval: Option<u32>) -> FlowConfig {
    make_config(vec![
        make_cycle("coding", &[], None),
        make_cycle("gardening", &["coding"], min_interval),
    ])
}

#[test]
fn test_coding_triggers_gardening_and_review() {
    let config = test_config();
    let triggered = find_triggered_cycles(&config, "coding", &Vec::new());
    assert_eq!(triggered, vec!["gardening", "review"]);
}

#[test]
fn test_no_cycles_triggered_after_gardening() {
    let config = test_config();
    let triggered = find_triggered_cycles(&config, "gardening", &Vec::new());
    assert!(triggered.is_empty());
}

#[test]
fn test_no_cycles_triggered_after_planning() {
    let config = test_config();
    let triggered = find_triggered_cycles(&config, "planning", &Vec::new());
    assert!(triggered.is_empty());
}

#[test]
fn test_unknown_cycle_triggers_nothing() {
    let config = test_config();
    let triggered = find_triggered_cycles(&config, "nonexistent", &Vec::new());
    assert!(triggered.is_empty());
}

#[test]
fn test_chain_dependencies() {
    let config = make_config(vec![
        make_cycle("coding", &[], None),
        make_cycle("gardening", &["coding"], None),
        make_cycle("review", &["gardening"], None),
    ]);
    let after_coding = find_triggered_cycles(&config, "coding", &Vec::new());
    assert_eq!(after_coding, vec!["gardening"]);
    let after_gardening = find_triggered_cycles(&config, "gardening", &Vec::new());
    assert_eq!(after_gardening, vec!["review"]);
}

#[test]
fn test_multiple_dependencies_all_required() {
    let config = make_config(vec![
        make_cycle("coding", &[], None),
        make_cycle("testing", &[], None),
        make_cycle("deploy", &["coding", "testing"], None),
    ]);
    let after_coding = find_triggered_cycles(&config, "coding", &Vec::new());
    assert_eq!(after_coding, vec!["deploy"]);
    let after_testing = find_triggered_cycles(&config, "testing", &Vec::new());
    assert_eq!(after_testing, vec!["deploy"]);
}

#[test]
fn test_empty_cycles_triggers_nothing() {
    let config = make_config(vec![]);
    let triggered = find_triggered_cycles(&config, "anything", &Vec::new());
    assert!(triggered.is_empty());
}

#[test]
fn test_cycle_does_not_trigger_itself() {
    let config = make_config(vec![make_cycle("coding", &[], None)]);
    let triggered = find_triggered_cycles(&config, "coding", &Vec::new());
    assert!(triggered.is_empty());
}

#[test]
fn test_min_interval_blocks_when_too_recent() {
    let config = gardening_after_coding_config(Some(3));
    let log = vec![make_log_entry(1, "coding"), make_log_entry(2, "gardening")];
    let triggered = find_triggered_cycles(&config, "coding", &log);
    assert!(triggered.is_empty());
}

#[test]
fn test_min_interval_allows_when_enough_elapsed() {
    let config = gardening_after_coding_config(Some(3));
    let log = vec![
        make_log_entry(1, "gardening"),
        make_log_entry(2, "coding"),
        make_log_entry(3, "coding"),
        make_log_entry(4, "coding"),
    ];
    let triggered = find_triggered_cycles(&config, "coding", &log);
    assert_eq!(triggered, vec!["gardening"]);
}

#[test]
fn test_min_interval_allows_when_never_ran() {
    let config = gardening_after_coding_config(Some(5));
    let log = vec![make_log_entry(1, "coding")];
    let triggered = find_triggered_cycles(&config, "coding", &log);
    assert_eq!(triggered, vec!["gardening"]);
}

#[test]
fn test_no_min_interval_always_triggers() {
    let config = gardening_after_coding_config(None);
    let log = vec![make_log_entry(1, "coding"), make_log_entry(2, "gardening")];
    let triggered = find_triggered_cycles(&config, "coding", &log);
    assert_eq!(triggered, vec!["gardening"]);
}

#[test]
fn test_min_interval_zero_always_triggers() {
    let config = gardening_after_coding_config(Some(0));
    let log = vec![make_log_entry(1, "coding"), make_log_entry(2, "gardening")];
    let triggered = find_triggered_cycles(&config, "coding", &log);
    assert_eq!(triggered, vec!["gardening"]);
}

#[test]
fn test_min_interval_boundary_exact_match() {
    let config = gardening_after_coding_config(Some(2));
    let log = vec![
        make_log_entry(1, "gardening"),
        make_log_entry(2, "coding"),
        make_log_entry(3, "coding"),
    ];
    let triggered = find_triggered_cycles(&config, "coding", &log);
    assert_eq!(triggered, vec!["gardening"]);
}

#[test]
fn test_min_interval_boundary_one_short() {
    let config = gardening_after_coding_config(Some(3));
    let log = vec![
        make_log_entry(1, "gardening"),
        make_log_entry(2, "coding"),
        make_log_entry(3, "coding"),
    ];
    let triggered = find_triggered_cycles(&config, "coding", &log);
    assert!(triggered.is_empty());
}

#[test]
fn test_min_interval_cross_run_not_fooled_by_old_entries() {
    let config = gardening_after_coding_config(Some(5));
    let log = vec![
        make_log_entry(1, "coding"),
        make_log_entry(2, "coding"),
        make_log_entry(3, "coding"),
        make_log_entry(4, "coding"),
        make_log_entry(5, "coding"),
        make_log_entry(6, "coding"),
        make_log_entry(7, "coding"),
        make_log_entry(8, "gardening"),
        make_log_entry(9, "coding"),
        make_log_entry(10, "coding"),
        make_log_entry(1, "coding"),
        make_log_entry(2, "gardening"),
        make_log_entry(3, "coding"),
    ];
    let triggered = find_triggered_cycles(&config, "coding", &log);
    assert!(triggered.is_empty());
}

#[test]
fn test_min_interval_cross_run_allows_after_enough_entries() {
    let config = gardening_after_coding_config(Some(3));
    let log = vec![
        make_log_entry(1, "coding"),
        make_log_entry(2, "gardening"),
        make_log_entry(3, "coding"),
        make_log_entry(1, "coding"),
        make_log_entry(2, "coding"),
        make_log_entry(3, "coding"),
    ];
    let triggered = find_triggered_cycles(&config, "coding", &log);
    assert_eq!(triggered, vec!["gardening"]);
}

#[test]
fn test_min_interval_only_considers_most_recent_occurrence() {
    let config = gardening_after_coding_config(Some(3));
    let log = vec![
        make_log_entry(1, "gardening"),
        make_log_entry(2, "coding"),
        make_log_entry(3, "coding"),
        make_log_entry(4, "gardening"),
        make_log_entry(5, "coding"),
        make_log_entry(6, "coding"),
    ];
    let triggered = find_triggered_cycles(&config, "coding", &log);
    assert!(triggered.is_empty());
}

#[test]
fn test_empty_log_triggers_when_no_min_interval() {
    let config = gardening_after_coding_config(None);
    let triggered = find_triggered_cycles(&config, "coding", &Vec::new());
    assert_eq!(triggered, vec!["gardening"]);
}

#[test]
fn test_empty_log_triggers_with_min_interval() {
    let config = gardening_after_coding_config(Some(10));
    let triggered = find_triggered_cycles(&config, "coding", &Vec::new());
    assert_eq!(triggered, vec!["gardening"]);
}
