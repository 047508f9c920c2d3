use flow::config::{ContextMode, CycleConfig, GlobalConfig, StepConfig, StepRouter};
use flow::permissions::{resolve_permissions, resolve_step_permissions};

fn perms(v: &[&str]) -> Vec<String> {
    v.iter().map(|s| s.to_string()).collect()
}

fn global(p: &[&str]) -> GlobalConfig {
    GlobalConfig {
        permissions: perms(p),
        max_permission_denials: 10,
        circuit_breaker_repeated: 5,
        max_consecutive_failures: 3,
        summary_interval: 5,
        vars: vec![],
    }
}

fn cycle(name: &str, p: &[&str]) -> CycleConfig {
    CycleConfig {
        name: name.to_string(),
        description: name.to_string(),
        prompt: name.to_string(),
        permissions: perms(p),
        after: vec![],
        context: ContextMode::NoContext,
        min_interval: None,
        max_turns: None,
        max_cost_micros: None,
        steps: vec![],
    }
}

fn step(name: &str, p: &[&str]) -> StepConfig {
    StepConfig {
        name: name.to_string(),
        session: None,
        prompt: name.to_string(),
        permissions: perms(p),
        router: StepRouter::Sequential,
        max_visits: 3,
        max_turns: None,
        max_cost_micros: None,
    }
}

#[test]
fn test_resolve_merges_global_and_cycle_permissions() {
    let g = global(&["Read", "Edit(./src/**)"]);
    let c = cycle("coding", &["Edit(./tests/**)", "Bash(cargo test *)"]);
    let resolved = resolve_permissions(&g, &c);
    assert_eq!(resolved, vec!["Read", "Edit(./src/**)", "Edit(./tests/**)", "Bash(cargo test *)"]);
}

#[test]
fn test_resolve_deduplicates_permissions() {
    let g = global(&["Read", "Bash(cargo *)"]);
    let c = cycle("coding", &["Read", "Bash(cargo *)"]);
    let resolved = resolve_permissions(&g, &c);
    assert_eq!(resolved, vec!["Read", "Bash(cargo *)"]);
}

#[test]
fn test_resolve_empty_cycle_permissions_returns_global() {
    let g = global(&["Read"]);
    let c = cycle("review", &[]);
    let resolved = resolve_permissions(&g, &c);
    assert_eq!(resolved, vec!["Read"]);
}

#[test]
fn test_resolve_empty_global_permissions_returns_cycle() {
    let g = global(&[]);
    let c = cycle("coding", &["Read", "Edit(./src/**)"]);
    let resolved = resolve_permissions(&g, &c);
    assert_eq!(resolved, vec!["Read", "Edit(./src/**)"]);
}

#[test]
fn test_resolve_both_empty_returns_empty() {
    let g = global(&[]);
    let c = cycle("review", &[]);
    let resolved = resolve_permissions(&g, &c);
    assert!(resolved.is_empty());
}

#[test]
fn test_resolve_preserves_order_global_then_cycle() {
    let g = global(&["Read"]);
    let c = cycle("coding", &["Edit(./src/**)", "Bash(cargo *)"]);
    let resolved = resolve_permissions(&g, &c);
    assert_eq!(resolved[0], "Read");
    assert_eq!(resolved[1], "Edit(./src/**)");
    assert_eq!(resolved[2], "Bash(cargo *)");
}

#[test]
fn test_resolve_deduplicates_preserving_first_occurrence() {
    let g = global(&["Read", "Bash(cargo *)"]);
    let c = cycle("coding", &["Bash(cargo *)", "Edit(./src/**)"]);
    let resolved = resolve_permissions(&g, &c);
    assert_eq!(resolved, vec!["Read", "Bash(cargo *)", "Edit(./src/**)"]);
}

#[test]
fn test_resolve_step_permissions_merges_global_cycle_and_step() {
    let g = global(&["Read"]);
    let c = cycle("coding", &[]);
    let s = step("plan", &["Edit(./.flow/current-plan.md)"]);
    let resolved = resolve_step_permissions(&g, &c, &s);
    assert_eq!(resolved, vec!["Read", "Edit(./.flow/current-plan.md)"]);
}

#[test]
fn test_resolve_step_permissions_deduplicates() {
    let g = global(&["Read"]);
    let c = cycle("coding", &[]);
    let s = step("implement", &["Read", "Edit(./src/**)"]);
    let resolved = resolve_step_permissions(&g, &c, &s);
    assert_eq!(resolved, vec!["Read", "Edit(./src/**)"]);
}

#[test]
fn test_resolve_step_permissions_additive_on_cycle_perms() {
    let g = global(&["Read"]);
    let c = cycle("coding", &["Glob"]);
    let s = step("implement", &["Edit(./src/**)"]);
    let resolved = resolve_step_permissions(&g, &c, &s);
    assert_eq!(resolved, vec!["Read", "Glob", "Edit(./src/**)"]);
}
