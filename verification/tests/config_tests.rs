use flow::config::{
    default_max_visits, validate_permission, ContextMode, CycleConfig, FlowConfig, GlobalConfig,
    StepConfig, StepRouter,
};

fn make_cycle(name: &str, prompt: &str) -> CycleConfig {
    CycleConfig {
        name: name.to_string(),
        description: name.to_string(),
        prompt: prompt.to_string(),
        permissions: vec![],
        after: vec![],
        context: ContextMode::NoContext,
        min_interval: None,
        max_turns: None,
        max_cost_micros: None,
        steps: vec![],
    }
}

fn make_config(cycles: Vec<CycleConfig>) -> FlowConfig {
    FlowConfig {
        global: GlobalConfig {
            permissions: vec![],
            max_permission_denials: 10,
            circuit_breaker_repeated: 5,
            max_consecutive_failures: 3,
            summary_interval: 5,
            vars: vec![],
        },
        selector: None,
        cycles,
    }
}

fn make_step(name: &str) -> StepConfig {
    StepConfig {
        name: name.to_string(),
        session: None,
        prompt: format!("Do {}", name),
        permissions: vec![],
        router: StepRouter::Sequential,
        max_visits: default_max_visits(),
        max_turns: None,
        max_cost_micros: None,
    }
}

#[test]
fn test_validate_accepts_unique_names() {
    let config = make_config(vec![make_cycle("coding", "Code"), make_cycle("review", "Review")]);
    assert!(config.validate().is_ok());
}

#[test]
fn test_reject_duplicate_cycle_names() {
    let config = make_config(vec![make_cycle("coding", "First"), make_cycle("coding", "Duplicate")]);
    let err = config.validate().unwrap_err();
    assert!(err.contains("Duplicate cycle name"));
}

#[test]
fn test_reject_unknown_after_reference() {
    let mut c = make_cycle("coding", "Code");
    c.after = vec!["nonexistent".to_string()];
    let config = make_config(vec![c]);
    let err = config.validate().unwrap_err();
    assert!(err.contains("unknown cycle"));
}

#[test]
fn test_reject_empty_cycle_name() {
    let config = make_config(vec![make_cycle("", "Empty")]);
    let err = config.validate().unwrap_err();
    assert!(err.contains("empty"));
}

#[test]
fn test_reject_cycle_without_prompt_or_steps() {
    let config = make_config(vec![make_cycle("coding", "")]);
    let err = config.validate().unwrap_err();
    assert!(err.contains("must have"));
}

#[test]
fn test_reject_cycle_with_prompt_and_steps() {
    let mut c = make_cycle("coding", "Code");
    c.steps = vec![make_step("plan")];
    let config = make_config(vec![c]);
    assert!(config.validate().is_err());
}

#[test]
fn test_reject_duplicate_step_names() {
    let mut c = make_cycle("coding", "");
    c.steps = vec![make_step("plan"), make_step("plan")];
    let config = make_config(vec![c]);
    let err = config.validate().unwrap_err();
    assert!(err.contains("Duplicate step name"));
}

#[test]
fn test_reject_zero_max_turns() {
    let mut c = make_cycle("coding", "Code");
    c.max_turns = Some(0);
    let config = make_config(vec![c]);
    assert!(config.validate().is_err());
}

#[test]
fn test_reject_zero_max_cost() {
    let mut c = make_cycle("coding", "Code");
    c.max_cost_micros = Some(0);
    let config = make_config(vec![c]);
    assert!(config.validate().is_err());
}

#[test]
fn test_reject_invalid_global_permission() {
    let mut config = make_config(vec![make_cycle("coding", "Code")]);
    config.global.permissions = vec!["lowercase".to_string()];
    assert!(config.validate().is_err());
}

#[test]
fn test_get_cycle_finds_configured() {
    let config = make_config(vec![make_cycle("coding", "Code")]);
    assert!(config.get_cycle("coding").is_some());
}

#[test]
fn test_get_cycle_not_found() {
    let config = make_config(vec![make_cycle("coding", "Code")]);
    assert!(config.get_cycle("nonexistent").is_none());
}

#[test]
fn test_is_multi_step() {
    let mut c = make_cycle("coding", "");
    c.steps = vec![make_step("plan")];
    assert!(c.is_multi_step());
    assert!(!make_cycle("review", "Review").is_multi_step());
}

#[test]
fn test_validate_permission_bare_tool() {
    assert!(validate_permission("Read").is_ok());
    assert!(validate_permission("Glob").is_ok());
}

#[test]
fn test_validate_permission_with_specifier() {
    assert!(validate_permission("Edit(./src/**)").is_ok());
    assert!(validate_permission("Bash(cargo test *)").is_ok());
}

#[test]
fn test_validate_permission_rejects_empty() {
    assert!(validate_permission("").is_err());
}

#[test]
fn test_validate_permission_rejects_lowercase() {
    assert!(validate_permission("read").is_err());
}

#[test]
fn test_validate_permission_rejects_empty_specifier() {
    assert!(validate_permission("Edit()").is_err());
}

#[test]
fn test_validate_permission_rejects_unclosed_specifier() {
    assert!(validate_permission("Edit(").is_err());
}

#[test]
fn test_config_defaults() {
    assert_eq!(flow::config::default_max_permission_denials(), 10);
    assert_eq!(flow::config::default_circuit_breaker_repeated(), 5);
    assert_eq!(flow::config::default_max_consecutive_failures(), 3);
    assert_eq!(flow::config::default_summary_interval(), 5);
    assert_eq!(flow::config::default_max_visits(), 3);
    assert!(matches!(flow::config::default_step_router(), StepRouter::Sequential));
    assert!(matches!(flow::config::default_context(), ContextMode::NoContext));
}

fn config_with_global_perms(perms: &[&str]) -> FlowConfig {
    let mut config = make_config(vec![make_cycle("test", "Test")]);
    config.global.permissions = perms.iter().map(|s| s.to_string()).collect();
    config
}

#[test]
fn test_valid_bare_tool_name() {
    assert!(config_with_global_perms(&["Read"]).validate().is_ok());
}

#[test]
fn test_valid_tool_with_specifier() {
    assert!(config_with_global_perms(&["Edit(./src/**)", "Bash(cargo test *)"]).validate().is_ok());
}

#[test]
fn test_reject_lowercase_tool_name() {
    assert!(config_with_global_perms(&["read"]).validate().is_err());
}

#[test]
fn test_reject_empty_permission_string() {
    assert!(config_with_global_perms(&[""]).validate().is_err());
}

#[test]
fn test_reject_permission_with_spaces_in_tool_name() {
    assert!(config_with_global_perms(&["Read Write"]).validate().is_err());
}

#[test]
fn test_reject_unbalanced_parens() {
    assert!(config_with_global_perms(&["Edit(./src/**"]).validate().is_err());
}

#[test]
fn test_reject_empty_specifier() {
    assert!(config_with_global_perms(&["Edit()"]).validate().is_err());
}

#[test]
fn test_reject_permission_with_trailing_text() {
    assert!(config_with_global_perms(&["Edit(./src/**)extra"]).validate().is_err());
}

#[test]
fn test_reject_invalid_cycle_permission() {
    let mut c = make_cycle("test", "Test");
    c.permissions = vec!["not-valid!".to_string()];
    let config = make_config(vec![c]);
    assert!(config.validate().is_err());
}

#[test]
fn test_valid_known_tool_names() {
    assert!(config_with_global_perms(&[
        "Read",
        "Glob",
        "Grep",
        "Edit(./src/**)",
        "Write(./out.txt)",
        "Bash(cargo *)",
        "WebFetch",
        "WebSearch",
        "NotebookEdit(./nb.ipynb)",
        "Task",
        "TodoWrite",
    ])
    .validate()
    .is_ok());
}

#[test]
fn test_reject_duplicate_step_names_within_cycle() {
    let mut c = make_cycle("coding", "");
    c.steps = vec![make_step("plan"), make_step("plan")];
    assert!(make_config(vec![c]).validate().is_err());
}

#[test]
fn test_reject_empty_step_name() {
    let mut c = make_cycle("coding", "");
    c.steps = vec![make_step("")];
    assert!(make_config(vec![c]).validate().is_err());
}

#[test]
fn test_reject_multi_step_cycle_with_top_level_prompt() {
    let mut c = make_cycle("coding", "This should not be here alongside steps.");
    c.steps = vec![make_step("plan")];
    assert!(make_config(vec![c]).validate().is_err());
}

#[test]
fn test_reject_cycle_without_prompt_and_without_steps() {
    assert!(make_config(vec![make_cycle("coding", "")]).validate().is_err());
}

#[test]
fn test_reject_max_turns_zero() {
    let mut c = make_cycle("coding", "Code");
    c.max_turns = Some(0);
    let err = make_config(vec![c]).validate().unwrap_err();
    assert!(err.contains("max_turns"));
}

#[test]
fn test_reject_max_cost_usd_zero() {
    let mut c = make_cycle("coding", "Code");
    c.max_cost_micros = Some(0);
    assert!(make_config(vec![c]).validate().is_err());
}

#[test]
fn test_step_permissions_validated() {
    let mut s = make_step("plan");
    s.permissions = vec!["bad perm".to_string()];
    let mut c = make_cycle("coding", "");
    c.steps = vec![s];
    assert!(make_config(vec![c]).validate().is_err());
}

#[test]
fn test_single_step_cycle_has_empty_steps() {
    let c = make_cycle("coding", "Code");
    assert!(c.steps.is_empty());
    assert!(!c.is_multi_step());
}

#[test]
fn test_step_without_session_tag_is_valid() {
    let mut c = make_cycle("coding", "");
    c.steps = vec![make_step("plan")];
    assert!(make_config(vec![c]).validate().is_ok());
}

#[test]
fn test_multi_step_cycle_has_no_top_level_prompt() {
    let mut c = make_cycle("coding", "");
    c.steps = vec![make_step("plan"), make_step("implement")];
    let config = make_config(vec![c]);
    assert!(config.validate().is_ok());
    assert!(config.get_cycle("coding").unwrap().prompt.is_empty());
}
