use flow::cli::{cli_usage_ok, Cli, Command};
use flow::executor::CycleResult;
use flow::runloop::{
    build_outcome, check_run_health, denial_gate_fires, denial_gate_message, format_exit_code,
    should_print_summary, RunOutcome,
};

fn argv(args: &[&str]) -> Vec<String> {
    args.iter().map(|s| s.to_string()).collect()
}

fn plain_result(success: bool, exit_code: Option<i32>) -> CycleResult {
    CycleResult {
        cycle_name: "coding".to_string(),
        success,
        exit_code,
        stderr: String::new(),
        duration_secs: 120,
        result_text: None,
        num_turns: None,
        total_cost_micros: None,
        permission_denial_count: None,
        permission_denials: None,
        files_changed: vec![],
        tests_passed: 0,
    }
}

#[test]
fn test_format_exit_code_some() {
    assert_eq!(format_exit_code(Some(0)), "0");
    assert_eq!(format_exit_code(Some(1)), "1");
    assert_eq!(format_exit_code(Some(127)), "127");
}

#[test]
fn test_format_exit_code_none() {
    assert_eq!(format_exit_code(None), "unknown");
}

#[test]
fn test_format_exit_code_negative() {
    assert_eq!(format_exit_code(Some(-9)), "-9");
}

#[test]
fn test_cli_parses_max_iterations() {
    let cli = Cli::try_parse_from(&argv(&["flow", "--cycle", "coding", "--max-iterations", "5"])).unwrap();
    assert_eq!(cli.max_iterations, 5);
    assert_eq!(cli.cycle.as_deref(), Some("coding"));
}

#[test]
fn test_cli_max_iterations_defaults_to_one() {
    let cli = Cli::try_parse_from(&argv(&["flow", "--cycle", "coding"])).unwrap();
    assert_eq!(cli.max_iterations, 1);
}

#[test]
fn test_cli_parses_doctor_subcommand() {
    let cli = Cli::try_parse_from(&argv(&["flow", "doctor"])).unwrap();
    assert!(matches!(cli.command, Some(Command::Doctor)));
    assert!(cli.cycle.is_none());
}

#[test]
fn test_cli_parses_init_subcommand() {
    let cli = Cli::try_parse_from(&argv(&["flow", "init"])).unwrap();
    assert!(matches!(cli.command, Some(Command::Init)));
    assert!(cli.cycle.is_none());
}

#[test]
fn test_cli_parses_cycle_flag() {
    let cli = Cli::try_parse_from(&argv(&["flow", "--cycle", "coding"])).unwrap();
    assert_eq!(cli.cycle.as_deref(), Some("coding"));
    assert!(cli.command.is_none());
}

#[test]
fn test_cli_parses_todo_flag() {
    let cli = Cli::try_parse_from(&argv(&["flow", "--cycle", "coding", "--todo", "my-todo.md"])).unwrap();
    assert_eq!(cli.todo, "my-todo.md");
}

#[test]
fn test_cli_todo_defaults_to_todo_md() {
    let cli = Cli::try_parse_from(&argv(&["flow", "--cycle", "coding"])).unwrap();
    assert_eq!(cli.todo, "TODO.md");
}

#[test]
fn test_cli_max_iterations_without_cycle_is_valid() {
    let cli = Cli::try_parse_from(&argv(&["flow", "--max-iterations", "10"])).unwrap();
    assert!(cli.cycle.is_none());
    assert_eq!(cli.max_iterations, 10);
}

#[test]
fn test_cli_rejects_unknown_argument() {
    assert!(Cli::try_parse_from(&argv(&["flow", "--bogus"])).is_err());
}

#[test]
fn test_cli_rejects_bad_number() {
    assert!(Cli::try_parse_from(&argv(&["flow", "--max-iterations", "many"])).is_err());
}

#[test]
fn test_cli_usage_rule() {
    assert!(cli_usage_ok(true, 1));
    assert!(cli_usage_ok(false, 2));
    assert!(!cli_usage_ok(false, 1));
}

#[test]
fn test_should_print_summary_at_interval() {
    assert!(should_print_summary(5, 5));
    assert!(should_print_summary(10, 5));
}

#[test]
fn test_should_print_summary_not_at_interval() {
    assert!(!should_print_summary(3, 5));
    assert!(!should_print_summary(1, 5));
}

#[test]
fn test_should_print_summary_disabled_when_zero() {
    assert!(!should_print_summary(5, 0));
    assert!(!should_print_summary(10, 0));
}

#[test]
fn test_run_health_ok_when_all_succeed() {
    let history = vec![
        RunOutcome { success: true },
        RunOutcome { success: true },
        RunOutcome { success: true },
    ];
    assert!(check_run_health(&history, 3).is_none());
}

#[test]
fn test_run_health_stops_on_consecutive_failures() {
    let history = vec![
        RunOutcome { success: true },
        RunOutcome { success: false },
        RunOutcome { success: false },
        RunOutcome { success: false },
    ];
    assert!(check_run_health(&history, 3).is_some());
}

#[test]
fn test_run_health_does_not_stop_below_threshold() {
    let history = vec![RunOutcome { success: false }, RunOutcome { success: false }];
    assert!(check_run_health(&history, 3).is_none());
}

#[test]
fn test_run_health_resets_on_success() {
    let history = vec![
        RunOutcome { success: false },
        RunOutcome { success: false },
        RunOutcome { success: true },
        RunOutcome { success: false },
        RunOutcome { success: false },
    ];
    assert!(check_run_health(&history, 3).is_none());
}

#[test]
fn test_run_health_empty_history_is_ok() {
    assert!(check_run_health(&Vec::new(), 3).is_none());
}

#[test]
fn test_run_health_returns_message_with_count() {
    let history = vec![
        RunOutcome { success: false },
        RunOutcome { success: false },
        RunOutcome { success: false },
    ];
    let msg = check_run_health(&history, 3).unwrap();
    assert!(msg.contains('3'));
}

#[test]
fn test_run_health_disabled_when_zero() {
    let history = vec![
        RunOutcome { success: false },
        RunOutcome { success: false },
        RunOutcome { success: false },
    ];
    assert!(check_run_health(&history, 0).is_none());
}

#[test]
fn test_denial_gate_below_threshold_does_not_fire() {
    assert!(!denial_gate_fires(0, 10));
    assert!(!denial_gate_fires(5, 10));
    assert!(!denial_gate_fires(10, 10));
}

#[test]
fn test_denial_gate_fires_above_threshold() {
    assert!(denial_gate_fires(3, 2));
    let msg = denial_gate_message(3, 2, "coding");
    assert!(msg.contains("permission denials"));
    assert!(msg.contains("exceeded"));
    assert!(msg.contains('3'));
    assert!(msg.contains('2'));
    assert!(msg.contains("coding"));
}

#[test]
fn test_build_outcome_success() {
    let result = plain_result(true, Some(0));
    let outcome = build_outcome(&result, 1, "2026-01-15T10:00:00Z".to_string());
    assert_eq!(outcome.cycle, "coding");
    assert_eq!(outcome.iteration, 1);
    assert_eq!(outcome.outcome, "Completed successfully");
    assert_eq!(outcome.duration_secs, 120);
    assert!(outcome.files_changed.is_empty());
}

#[test]
fn test_build_outcome_failure() {
    let mut result = plain_result(false, Some(1));
    result.duration_secs = 30;
    let outcome = build_outcome(&result, 3, "2026-01-15T10:00:00Z".to_string());
    assert_eq!(outcome.outcome, "Failed with exit code 1");
    assert_eq!(outcome.iteration, 3);
}

#[test]
fn test_build_outcome_killed_by_signal() {
    let result = plain_result(false, None);
    let outcome = build_outcome(&result, 1, "2026-01-15T10:00:00Z".to_string());
    assert_eq!(outcome.outcome, "Failed with exit code unknown");
}

#[test]
fn test_build_outcome_uses_result_text_when_present() {
    let mut result = plain_result(true, Some(0));
    result.result_text = Some("Implemented feature X with 5 tests".to_string());
    result.num_turns = Some(53);
    result.total_cost_micros = Some(2_150_000);
    result.permission_denial_count = Some(3);
    result.permission_denials = Some(vec!["Edit".to_string(), "Bash".to_string(), "Edit".to_string()]);
    result.files_changed = vec!["src/main.rs".to_string()];
    let outcome = build_outcome(&result, 1, "2026-01-15T10:00:00Z".to_string());
    assert_eq!(outcome.outcome, "Implemented feature X with 5 tests");
    assert_eq!(outcome.num_turns, Some(53));
    assert_eq!(outcome.total_cost_micros, Some(2_150_000));
    assert_eq!(outcome.permission_denial_count, Some(3));
    assert_eq!(outcome.permission_denials.as_ref().unwrap().len(), 3);
    assert_eq!(outcome.files_changed, vec!["src/main.rs"]);
}

#[test]
fn test_build_outcome_propagates_tests_passed() {
    let mut result = plain_result(true, Some(0));
    result.tests_passed = 99;
    let outcome = build_outcome(&result, 1, "2026-01-15T10:00:00Z".to_string());
    assert_eq!(outcome.tests_passed, 99);
}

#[test]
fn test_build_outcome_propagates_files_changed() {
    let mut result = plain_result(true, Some(0));
    result.duration_secs = 60;
    result.files_changed = vec![
        "src/main.rs".to_string(),
        "src/lib.rs".to_string(),
        "tests/foo.rs".to_string(),
    ];
    let outcome = build_outcome(&result, 1, "2026-01-15T10:00:00Z".to_string());
    assert_eq!(outcome.files_changed, vec!["src/main.rs", "src/lib.rs", "tests/foo.rs"]);
}

#[test]
fn test_check_denial_gate_below_threshold_does_not_exit() {
    assert!(!denial_gate_fires(0, 10));
    assert!(!denial_gate_fires(5, 10));
    assert!(!denial_gate_fires(10, 10));
}

#[test]
fn test_available_cycle_names() {
    let config = flow::config::FlowConfig {
        global: flow::config::GlobalConfig {
            permissions: vec![],
            max_permission_denials: 10,
            circuit_breaker_repeated: 5,
            max_consecutive_failures: 3,
            summary_interval: 5,
            vars: vec![],
        },
        selector: None,
        cycles: ["coding", "gardening"]
            .iter()
            .map(|name| flow::config::CycleConfig {
                name: name.to_string(),
                description: name.to_string(),
                prompt: name.to_string(),
                permissions: vec![],
                after: vec![],
                context: flow::config::ContextMode::NoContext,
                min_interval: None,
                max_turns: None,
                max_cost_micros: None,
                steps: vec![],
            })
            .collect(),
    };
    let names = flow::cli::available_cycle_names(&config);
    assert_eq!(names, "coding, gardening");
}
