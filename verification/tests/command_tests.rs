use flow::command::{build_command, build_command_with_options, build_command_with_session, CommandOptions};
use flow::session::SessionManager;

fn perms(v: &[&str]) -> Vec<String> {
    v.iter().map(|s| s.to_string()).collect()
}

#[test]
fn test_build_passes_prompt_with_print_flag() {
    let args = build_command("Fix the bug", &Vec::new());
    assert!(args.contains(&"-p".to_string()));
    assert!(args.contains(&"Fix the bug".to_string()));
}

#[test]
fn test_build_with_permissions_adds_allowed_tools() {
    let args = build_command("Code", &perms(&["Read", "Edit(./src/**)"]));
    assert!(args.contains(&"--allowedTools".to_string()));
    assert!(args.contains(&"Read".to_string()));
    assert!(args.contains(&"Edit(./src/**)".to_string()));
}

#[test]
fn test_build_without_permissions_omits_allowed_tools() {
    let args = build_command("Code", &Vec::new());
    assert!(!args.contains(&"--allowedTools".to_string()));
}

#[test]
fn test_build_args_order_is_prompt_then_tools() {
    let args = build_command("My prompt", &perms(&["Read"]));
    let p_pos = args.iter().position(|a| a == "-p").unwrap();
    let tools_pos = args.iter().position(|a| a == "--allowedTools").unwrap();
    assert!(p_pos < tools_pos);
}

#[test]
fn test_build_with_multiple_permissions() {
    let args = build_command("Test", &perms(&["Read", "Edit(./src/**)", "Bash(cargo test *)"]));
    let tools_pos = args.iter().position(|a| a == "--allowedTools").unwrap();
    assert_eq!(args[tools_pos + 1], "Read");
    assert_eq!(args[tools_pos + 2], "Edit(./src/**)");
    assert_eq!(args[tools_pos + 3], "Bash(cargo test *)");
}

#[test]
fn test_build_sets_json_output_format() {
    let args = build_command("Code", &Vec::new());
    assert!(args.contains(&"--output-format".to_string()));
    assert!(args.contains(&"stream-json".to_string()));
}

#[test]
fn test_build_includes_verbose_flag() {
    let args = build_command("Code", &Vec::new());
    assert!(args.contains(&"--verbose".to_string()));
}

#[test]
fn test_build_with_resume_args_includes_resume_flag() {
    let resume = vec!["--resume".to_string(), "abc-123".to_string()];
    let args = build_command_with_session("Code", &Vec::new(), &resume);
    assert!(args.contains(&"--resume".to_string()));
    assert!(args.contains(&"abc-123".to_string()));
}

#[test]
fn test_build_with_empty_resume_args_behaves_like_build_command() {
    let args1 = build_command("Code", &perms(&["Read"]));
    let args2 = build_command_with_session("Code", &perms(&["Read"]), &Vec::new());
    assert_eq!(args1, args2);
}

#[test]
fn test_command_options_default_has_no_limits() {
    let opts = CommandOptions::new();
    assert!(opts.resume_args.is_empty());
    assert!(opts.max_turns.is_none());
    assert!(opts.max_cost_micros.is_none());
}

#[test]
fn test_build_with_max_turns_adds_flag() {
    let mut opts = CommandOptions::new();
    opts.max_turns = Some(50);
    let args = build_command_with_options("Code", &Vec::new(), &opts);
    assert!(args.contains(&"--max-turns".to_string()));
    assert!(args.contains(&"50".to_string()));
}

#[test]
fn test_build_with_max_cost_adds_flag() {
    let mut opts = CommandOptions::new();
    opts.max_cost_micros = Some(5_000_000);
    let args = build_command_with_options("Code", &Vec::new(), &opts);
    assert!(args.contains(&"--max-budget-usd".to_string()));
    assert!(args.contains(&"5".to_string()));
}

#[test]
fn test_build_with_both_limits() {
    let mut opts = CommandOptions::new();
    opts.max_turns = Some(100);
    opts.max_cost_micros = Some(10_000_000);
    let args = build_command_with_options("Code", &Vec::new(), &opts);
    assert!(args.contains(&"--max-turns".to_string()));
    assert!(args.contains(&"100".to_string()));
    assert!(args.contains(&"--max-budget-usd".to_string()));
    assert!(args.contains(&"10".to_string()));
}

#[test]
fn test_build_with_resume_and_limits() {
    let mut opts = CommandOptions::new();
    opts.resume_args = vec!["--resume".to_string(), "abc-123".to_string()];
    opts.max_turns = Some(30);
    opts.max_cost_micros = Some(2_500_000);
    let args = build_command_with_options("Code", &Vec::new(), &opts);
    assert!(args.contains(&"--resume".to_string()));
    assert!(args.contains(&"abc-123".to_string()));
    assert!(args.contains(&"--max-turns".to_string()));
    assert!(args.contains(&"30".to_string()));
    assert!(args.contains(&"--max-budget-usd".to_string()));
    assert!(args.contains(&"2.5".to_string()));
}

#[test]
fn test_build_command_delegates_to_default_options() {
    let args1 = build_command("Code", &perms(&["Read"]));
    let args2 = build_command_with_options("Code", &perms(&["Read"]), &CommandOptions::new());
    assert_eq!(args1, args2);
}

#[test]
fn test_session_resume_appears_before_prompt_flag() {
    let mut mgr = SessionManager::new();
    mgr.register("architect", "A".to_string());
    let resume = mgr.resume_args(Some("architect"));
    let args = build_command_with_session("Review the plan", &Vec::new(), &resume);
    let resume_pos = args.iter().position(|a| a == "--resume").unwrap();
    let id_pos = args.iter().position(|a| a == "A").unwrap();
    let p_pos = args.iter().position(|a| a == "-p").unwrap();
    assert_eq!(id_pos, resume_pos + 1);
    assert!(resume_pos < p_pos);
}

#[test]
fn test_build_sets_agent_binary() {
    let args = build_command("Do something", &Vec::new());
    assert_eq!(args[0], "agent");
}
