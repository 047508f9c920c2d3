use flow::executor::CycleResult;
use flow::progress::{bump_cycle_count, RunProgress};
use flow::runloop::update_progress_after_cycle;

fn result_with(duration: u64, cost: Option<u64>, text: Option<&str>) -> CycleResult {
    CycleResult {
        cycle_name: "coding".to_string(),
        success: true,
        exit_code: Some(0),
        stderr: String::new(),
        duration_secs: duration,
        result_text: text.map(|s| s.to_string()),
        num_turns: None,
        total_cost_micros: cost,
        permission_denial_count: None,
        permission_denials: None,
        files_changed: vec![],
        tests_passed: 0,
    }
}

#[test]
fn test_bump_inserts_then_increments() {
    let mut counts: Vec<(String, u32)> = Vec::new();
    bump_cycle_count(&mut counts, "coding");
    assert_eq!(counts, vec![("coding".to_string(), 1)]);
    bump_cycle_count(&mut counts, "coding");
    assert_eq!(counts, vec![("coding".to_string(), 2)]);
    bump_cycle_count(&mut counts, "review");
    assert_eq!(counts, vec![("coding".to_string(), 2), ("review".to_string(), 1)]);
}

#[test]
fn test_update_progress_accumulates_totals() {
    let mut progress = RunProgress::new(10, "2026-01-15T10:00:00Z".to_string());
    update_progress_after_cycle(&mut progress, "coding", &result_with(30, Some(1_000_000), Some("one")));
    update_progress_after_cycle(&mut progress, "coding", &result_with(12, None, None));
    update_progress_after_cycle(&mut progress, "review", &result_with(8, Some(250_000), Some("three")));
    assert_eq!(progress.total_duration_secs, 50);
    assert_eq!(progress.total_cost_micros, 1_250_000);
    assert_eq!(
        progress.cycles_executed,
        vec![("coding".to_string(), 2), ("review".to_string(), 1)]
    );
    assert_eq!(progress.last_outcome.as_deref(), Some("three"));
}

#[test]
fn test_update_progress_keeps_identity_fields() {
    let mut progress = RunProgress::new(10, "2026-01-15T10:00:00Z".to_string());
    progress.current_iteration = 4;
    progress.current_cycle = "coding".to_string();
    update_progress_after_cycle(&mut progress, "coding", &result_with(30, None, None));
    assert_eq!(progress.current_iteration, 4);
    assert_eq!(progress.current_cycle, "coding");
    assert_eq!(progress.started_at, "2026-01-15T10:00:00Z");
    assert_eq!(progress.max_iterations, 10);
}

#[test]
fn test_progress_duration_matches_log_sum() {
    // the invariant the run loop maintains: the progress total equals the
    // sum of the appended durations
    let mut progress = RunProgress::new(10, "t".to_string());
    let durations = [30u64, 12, 8, 0, 99];
    let mut sum = 0u64;
    for d in durations {
        update_progress_after_cycle(&mut progress, "coding", &result_with(d, None, None));
        sum += d;
        assert_eq!(progress.total_duration_secs, sum);
    }
}
