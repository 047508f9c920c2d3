use flow::config::ContextMode;
use flow::context::{build_context, inject_context};
use flow::outcome::CycleOutcome;

fn make_outcome(iteration: u32, cycle: &str, outcome: &str) -> CycleOutcome {
    CycleOutcome {
        iteration,
        cycle: cycle.to_string(),
        timestamp: "2026-01-15T10:00:00Z".to_string(),
        outcome: outcome.to_string(),
        files_changed: vec![],
        tests_passed: 0,
        duration_secs: 60,
        num_turns: None,
        total_cost_micros: None,
        permission_denial_count: None,
        permission_denials: None,
        steps: None,
    }
}

#[test]
fn test_context_none_returns_none() {
    let outcomes = vec![make_outcome(1, "coding", "Implemented feature X")];
    let result = build_context(&ContextMode::NoContext, &outcomes);
    assert!(result.is_none());
}

#[test]
fn test_context_none_with_empty_log_returns_none() {
    let result = build_context(&ContextMode::NoContext, &Vec::new());
    assert!(result.is_none());
}

#[test]
fn test_summaries_empty_log_returns_some() {
    let result = build_context(&ContextMode::Summaries, &Vec::new());
    assert!(result.is_some());
}

#[test]
fn test_summaries_empty_log_indicates_no_history() {
    let result = build_context(&ContextMode::Summaries, &Vec::new()).unwrap();
    assert!(result.contains("No previous iterations"));
}

#[test]
fn test_summaries_includes_iteration_number() {
    let outcomes = vec![make_outcome(3, "coding", "Some work done")];
    let result = build_context(&ContextMode::Summaries, &outcomes).unwrap();
    assert!(result.contains("Iteration 3"));
}

#[test]
fn test_summaries_includes_cycle_name() {
    let outcomes = vec![make_outcome(1, "gardening", "Cleaned up deps")];
    let result = build_context(&ContextMode::Summaries, &outcomes).unwrap();
    assert!(result.contains("gardening"));
}

#[test]
fn test_summaries_includes_outcome_text() {
    let outcomes = vec![make_outcome(1, "coding", "Implemented the logger")];
    let result = build_context(&ContextMode::Summaries, &outcomes).unwrap();
    assert!(result.contains("Implemented the logger"));
}

#[test]
fn test_summaries_multiple_outcomes_all_included() {
    let outcomes = vec![
        make_outcome(1, "coding", "Built feature A"),
        make_outcome(2, "gardening", "Cleaned deps"),
        make_outcome(3, "review", "Reviewed changes"),
    ];
    let result = build_context(&ContextMode::Summaries, &outcomes).unwrap();
    assert!(result.contains("Iteration 1"));
    assert!(result.contains("Iteration 2"));
    assert!(result.contains("Iteration 3"));
    assert!(result.contains("Built feature A"));
    assert!(result.contains("Cleaned deps"));
    assert!(result.contains("Reviewed changes"));
}

#[test]
fn test_summaries_has_header() {
    let result = build_context(&ContextMode::Summaries, &Vec::new()).unwrap();
    assert!(result.contains("Previous Iteration Summaries"));
}

#[test]
fn test_full_empty_log_returns_some() {
    let result = build_context(&ContextMode::Full, &Vec::new());
    assert!(result.is_some());
}

#[test]
fn test_full_empty_log_indicates_no_history() {
    let result = build_context(&ContextMode::Full, &Vec::new()).unwrap();
    assert!(result.contains("No previous iterations"));
}

#[test]
fn test_full_includes_iteration_number() {
    let outcomes = vec![make_outcome(5, "coding", "Big feature")];
    let result = build_context(&ContextMode::Full, &outcomes).unwrap();
    assert!(result.contains("Iteration 5"));
}

#[test]
fn test_full_includes_cycle_name_in_header() {
    let outcomes = vec![make_outcome(1, "review", "Code review done")];
    let result = build_context(&ContextMode::Full, &outcomes).unwrap();
    assert!(result.contains("review"));
}

#[test]
fn test_full_includes_outcome_text() {
    let outcomes = vec![make_outcome(1, "coding", "Implemented context injector")];
    let result = build_context(&ContextMode::Full, &outcomes).unwrap();
    assert!(result.contains("Implemented context injector"));
}

#[test]
fn test_full_includes_duration() {
    let mut outcome = make_outcome(1, "coding", "done");
    outcome.duration_secs = 142;
    let result = build_context(&ContextMode::Full, &vec![outcome]).unwrap();
    assert!(result.contains("142"));
}

#[test]
fn test_full_includes_num_turns_when_present() {
    let mut outcome = make_outcome(1, "coding", "done");
    outcome.num_turns = Some(37);
    let result = build_context(&ContextMode::Full, &vec![outcome]).unwrap();
    assert!(result.contains("37"));
}

#[test]
fn test_full_includes_cost_when_present() {
    let mut outcome = make_outcome(1, "coding", "done");
    outcome.total_cost_micros = Some(1_230_000);
    let result = build_context(&ContextMode::Full, &vec![outcome]).unwrap();
    assert!(result.contains("1.23"));
}

#[test]
fn test_full_includes_files_changed() {
    let mut outcome = make_outcome(1, "coding", "done");
    outcome.files_changed = vec!["src/main.rs".to_string(), "src/lib.rs".to_string()];
    let result = build_context(&ContextMode::Full, &vec![outcome]).unwrap();
    assert!(result.contains("src/main.rs"));
    assert!(result.contains("src/lib.rs"));
}

#[test]
fn test_full_omits_empty_files_changed() {
    let outcome = make_outcome(1, "coding", "done");
    let result = build_context(&ContextMode::Full, &vec![outcome]).unwrap();
    assert!(!result.contains("Files changed"));
}

#[test]
fn test_full_includes_permission_denials_when_nonzero() {
    let mut outcome = make_outcome(1, "coding", "done");
    outcome.permission_denial_count = Some(3);
    let result = build_context(&ContextMode::Full, &vec![outcome]).unwrap();
    assert!(result.contains("Permission denials: 3"));
}

#[test]
fn test_full_omits_permission_denials_when_zero() {
    let mut outcome = make_outcome(1, "coding", "done");
    outcome.permission_denial_count = Some(0);
    let result = build_context(&ContextMode::Full, &vec![outcome]).unwrap();
    assert!(!result.contains("Permission denials"));
}

#[test]
fn test_full_has_header() {
    let result = build_context(&ContextMode::Full, &Vec::new()).unwrap();
    assert!(result.contains("Full Iteration History"));
}

#[test]
fn test_inject_context_none_returns_prompt_unchanged() {
    let prompt = "You are the coding cycle.";
    let result = inject_context(prompt, None);
    assert_eq!(result, prompt);
}

#[test]
fn test_inject_context_some_prepends_block() {
    let prompt = "You are the coding cycle.";
    let block = "## Previous History\n\n- Iteration 1: Done".to_string();
    let result = inject_context(prompt, Some(block.clone()));
    assert!(result.starts_with(&block));
    assert!(result.contains(prompt));
}

#[test]
fn test_inject_context_separator_between_context_and_prompt() {
    let prompt = "Run coding cycle.";
    let block = "## History".to_string();
    let result = inject_context(prompt, Some(block));
    assert!(result.contains("---"));
}

#[test]
fn test_inject_context_prompt_comes_after_separator() {
    let prompt = "Run coding cycle.";
    let block = "## History\n\nSome context.".to_string();
    let result = inject_context(prompt, Some(block));
    let sep_pos = result.find("---").unwrap();
    let prompt_pos = result.find(prompt).unwrap();
    assert!(prompt_pos > sep_pos);
}
