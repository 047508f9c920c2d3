use flow::config::{StepConfig, StepRouter};
use flow::router::{
    build_router_prompt, eligible_steps, parse_router_response, route_sequential,
    sequential_decision, RouteDecision, VisitTracker,
};

fn names(v: &[&str]) -> Vec<String> {
    v.iter().map(|s| s.to_string()).collect()
}

fn make_step(name: &str, router: StepRouter, max_visits: u32) -> StepConfig {
    StepConfig {
        name: name.to_string(),
        session: None,
        prompt: format!("Do {}", name),
        permissions: vec![],
        router,
        max_visits,
        max_turns: None,
        max_cost_micros: None,
    }
}

#[test]
fn test_visit_tracker_starts_empty() {
    let tracker = VisitTracker::new();
    assert_eq!(tracker.count("plan"), 0);
}

#[test]
fn test_visit_tracker_records_visits() {
    let mut tracker = VisitTracker::new();
    assert_eq!(tracker.record("plan"), 1);
    assert_eq!(tracker.record("plan"), 2);
    assert_eq!(tracker.count("plan"), 2);
}

#[test]
fn test_visit_tracker_independent_steps() {
    let mut tracker = VisitTracker::new();
    tracker.record("plan");
    tracker.record("implement");
    assert_eq!(tracker.count("plan"), 1);
    assert_eq!(tracker.count("implement"), 1);
}

#[test]
fn test_visit_tracker_would_exceed() {
    let mut tracker = VisitTracker::new();
    tracker.record("plan");
    tracker.record("plan");
    tracker.record("plan");
    assert!(tracker.would_exceed("plan", 3));
    assert!(!tracker.would_exceed("plan", 4));
}

#[test]
fn test_visit_tracker_would_not_exceed_when_empty() {
    let tracker = VisitTracker::new();
    assert!(!tracker.would_exceed("plan", 3));
}

#[test]
fn test_route_sequential_first_step() {
    assert_eq!(route_sequential(0, 3), Some(1));
}

#[test]
fn test_route_sequential_middle_step() {
    assert_eq!(route_sequential(1, 3), Some(2));
}

#[test]
fn test_route_sequential_last_step() {
    assert_eq!(route_sequential(2, 3), None);
}

#[test]
fn test_route_sequential_single_step() {
    assert_eq!(route_sequential(0, 1), None);
}

#[test]
fn test_build_router_prompt_contains_step_name() {
    let prompt = build_router_prompt("plan-review", "Plan approved", &names(&["plan", "implement"]));
    assert!(prompt.contains("plan-review"));
    assert!(prompt.contains("Plan approved"));
}

#[test]
fn test_build_router_prompt_lists_available_steps() {
    let prompt = build_router_prompt("review", "Output", &names(&["plan", "implement", "test"]));
    assert!(prompt.contains("- plan"));
    assert!(prompt.contains("- implement"));
    assert!(prompt.contains("- test"));
}

#[test]
fn test_parse_router_response_valid_goto() {
    let response = r#"{"next": "implement", "reason": "Plan was approved"}"#;
    let decision = parse_router_response(response, &names(&["plan", "implement", "review"])).unwrap();
    assert!(matches!(
        decision,
        RouteDecision::GoTo { ref step_name, ref reason }
            if step_name == "implement" && reason == "Plan was approved"
    ));
}

#[test]
fn test_parse_router_response_done() {
    let response = r#"{"next": "DONE", "reason": "All work complete"}"#;
    let decision = parse_router_response(response, &names(&["plan", "implement"])).unwrap();
    assert!(matches!(decision, RouteDecision::Done { ref reason } if reason == "All work complete"));
}

#[test]
fn test_parse_router_response_done_case_insensitive() {
    let response = r#"{"next": "done", "reason": "Finished"}"#;
    let decision = parse_router_response(response, &names(&["plan"])).unwrap();
    assert!(matches!(decision, RouteDecision::Done { ref reason } if reason == "Finished"));
}

#[test]
fn test_parse_router_response_json_with_surrounding_text() {
    let response = "Here is my decision:\n{\"next\": \"plan\", \"reason\": \"Retry plan\"}\nDone.";
    let decision = parse_router_response(response, &names(&["plan", "implement"])).unwrap();
    assert!(matches!(
        decision,
        RouteDecision::GoTo { ref step_name, ref reason } if step_name == "plan" && reason == "Retry plan"
    ));
}

#[test]
fn test_parse_router_response_fallback_done() {
    let response = "The work is DONE and nothing more is needed.";
    let decision = parse_router_response(response, &names(&["plan", "implement"])).unwrap();
    assert!(matches!(decision, RouteDecision::Done { .. }));
}

#[test]
fn test_parse_router_response_fallback_step_name() {
    let response = "We should go to the implement step next.";
    let decision = parse_router_response(response, &names(&["plan", "implement"])).unwrap();
    assert!(matches!(
        decision,
        RouteDecision::GoTo { ref step_name, ref reason }
            if step_name == "implement" && reason == "Extracted from response text (JSON parse failed)"
    ));
}

#[test]
fn test_parse_router_response_no_match() {
    let response = "I have no idea what to do next.";
    let decision = parse_router_response(response, &names(&["plan", "implement"]));
    assert!(decision.is_none());
}

#[test]
fn test_parse_router_response_done_takes_priority_over_step_name_in_fallback() {
    let response = "The implement step is not needed, we are DONE.";
    let decision = parse_router_response(response, &names(&["plan", "implement"])).unwrap();
    assert!(matches!(decision, RouteDecision::Done { .. }));
}

#[test]
fn test_parse_router_response_invalid_step_in_json() {
    let response = r#"{"next": "nonexistent", "reason": "test"}"#;
    let decision = parse_router_response(response, &names(&["plan", "implement"]));
    assert!(decision.is_none());
}

#[test]
fn test_parse_router_response_prefers_json_over_fallback() {
    let response = "Let's go to implement.\n{\"next\": \"plan\", \"reason\": \"Need to re-plan\"}";
    let decision = parse_router_response(response, &names(&["plan", "implement"])).unwrap();
    assert!(matches!(
        decision,
        RouteDecision::GoTo { ref step_name, ref reason } if step_name == "plan" && reason == "Need to re-plan"
    ));
}

#[test]
fn test_sequential_decision_middle() {
    let steps = vec![
        make_step("plan", StepRouter::Sequential, 3),
        make_step("implement", StepRouter::Sequential, 3),
        make_step("test", StepRouter::Sequential, 3),
    ];
    let result = sequential_decision(0, &steps);
    assert!(matches!(
        result,
        RouteDecision::GoTo { ref step_name, ref reason }
            if step_name == "implement" && reason == "Sequential progression"
    ));
}

#[test]
fn test_sequential_decision_last() {
    let steps = vec![
        make_step("plan", StepRouter::Sequential, 3),
        make_step("implement", StepRouter::Sequential, 3),
    ];
    let result = sequential_decision(1, &steps);
    assert!(matches!(
        result,
        RouteDecision::Done { ref reason } if reason == "Sequential progression"
    ));
}

#[test]
fn test_eligible_steps_filters_exhausted() {
    let steps = vec![
        make_step("plan", StepRouter::Llm, 1),
        make_step("implement", StepRouter::Llm, 3),
    ];
    let mut tracker = VisitTracker::new();
    tracker.record("plan");
    let avail = eligible_steps(&steps, &tracker);
    assert_eq!(avail, vec!["implement"]);
}
