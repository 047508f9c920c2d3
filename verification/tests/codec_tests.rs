use flow::codec::{JsonlLogger, ProgressWriter};
use flow::outcome::CycleOutcome;
use flow::progress::{RunProgress, RunStatus};

fn sample_progress() -> RunProgress {
    RunProgress {
        started_at: "2026-01-15T10:00:00Z".to_string(),
        current_iteration: 3,
        max_iterations: 20,
        current_cycle: "coding".to_string(),
        current_status: RunStatus::Running,
        cycles_executed: vec![("coding".to_string(), 2), ("gardening".to_string(), 1)],
        total_duration_secs: 445,
        total_cost_micros: 3_450_000,
        last_outcome: Some("Added the client implementation".to_string()),
    }
}

fn sample_outcome() -> CycleOutcome {
    CycleOutcome {
        iteration: 1,
        cycle: "coding".to_string(),
        timestamp: "2026-01-15T10:00:00Z".to_string(),
        outcome: "Implemented basic feature".to_string(),
        files_changed: vec!["src/main.rs".to_string()],
        tests_passed: 3,
        duration_secs: 180,
        num_turns: None,
        total_cost_micros: None,
        permission_denial_count: None,
        permission_denials: None,
        steps: None,
    }
}

#[test]
fn test_run_progress_serializes_to_expected_json() {
    let writer = ProgressWriter::new(".flow");
    let text = writer.encode(&sample_progress());
    let json: serde_json::Value = serde_json::from_str(&text).unwrap();
    assert_eq!(json["current_iteration"], 3);
    assert_eq!(json["max_iterations"], 20);
    assert_eq!(json["current_cycle"], "coding");
    assert_eq!(json["current_status"], "running");
    assert_eq!(json["cycles_executed"]["coding"], 2);
    assert_eq!(json["cycles_executed"]["gardening"], 1);
    assert_eq!(json["total_duration_secs"], 445);
    assert_eq!(json["last_outcome"], "Added the client implementation");
    assert!(json["started_at"].is_string());
    let cost = json["total_cost_usd"].as_f64().unwrap();
    assert!((cost - 3.45).abs() < 1e-9);
}

#[test]
fn test_run_progress_round_trip() {
    let writer = ProgressWriter::new(".flow");
    let progress = sample_progress();
    let text = writer.encode(&progress);
    let recovered = writer.decode(&text).unwrap();
    assert_eq!(recovered.started_at, progress.started_at);
    assert_eq!(recovered.current_iteration, progress.current_iteration);
    assert_eq!(recovered.max_iterations, progress.max_iterations);
    assert_eq!(recovered.current_cycle, progress.current_cycle);
    assert!(matches!(recovered.current_status, RunStatus::Running));
    assert_eq!(recovered.cycles_executed, progress.cycles_executed);
    assert_eq!(recovered.total_duration_secs, progress.total_duration_secs);
    assert_eq!(recovered.total_cost_micros, progress.total_cost_micros);
    assert_eq!(recovered.last_outcome, progress.last_outcome);
}

#[test]
fn test_run_progress_round_trip_without_last_outcome() {
    let writer = ProgressWriter::new(".flow");
    let mut progress = sample_progress();
    progress.last_outcome = None;
    progress.current_status = RunStatus::Stopped;
    let text = writer.encode(&progress);
    assert!(!text.contains("last_outcome"));
    let recovered = writer.decode(&text).unwrap();
    assert!(recovered.last_outcome.is_none());
    assert!(matches!(recovered.current_status, RunStatus::Stopped));
}

#[test]
fn test_run_status_serializes_lowercase() {
    let writer = ProgressWriter::new(".flow");
    for (status, word) in [
        (RunStatus::Running, "running"),
        (RunStatus::Completed, "completed"),
        (RunStatus::Failed, "failed"),
        (RunStatus::Stopped, "stopped"),
    ] {
        let mut p = sample_progress();
        p.current_status = status;
        let text = writer.encode(&p);
        let json: serde_json::Value = serde_json::from_str(&text).unwrap();
        assert_eq!(json["current_status"], word);
    }
}

#[test]
fn test_total_cost_usd_defaults_to_zero_on_deserialize() {
    let writer = ProgressWriter::new(".flow");
    let json = r#"{
        "started_at": "2026-01-15T10:00:00Z",
        "current_iteration": 1,
        "max_iterations": 5,
        "current_cycle": "coding",
        "current_status": "running",
        "cycles_executed": {},
        "total_duration_secs": 0
    }"#;
    let progress = writer.decode(json).unwrap();
    assert_eq!(progress.total_cost_micros, 0);
}

#[test]
fn test_progress_decode_rejects_missing_required_field() {
    let writer = ProgressWriter::new(".flow");
    let json = r#"{"current_iteration": 1}"#;
    assert!(writer.decode(json).is_none());
}

#[test]
fn test_progress_writer_path() {
    let writer = ProgressWriter::new(".flow");
    assert_eq!(writer.path, ".flow/progress.json");
}

#[test]
fn test_logger_path() {
    let logger = JsonlLogger::new(".flow");
    assert_eq!(logger.log_path(), ".flow/log.jsonl");
}

#[test]
fn test_outcome_line_round_trip() {
    let logger = JsonlLogger::new(".flow");
    let outcome = sample_outcome();
    let line = logger.encode_line(&outcome);
    let decoded = logger.decode_log(&line).unwrap();
    assert_eq!(decoded.len(), 1);
    assert_eq!(decoded[0].iteration, 1);
    assert_eq!(decoded[0].cycle, "coding");
    assert_eq!(decoded[0].outcome, "Implemented basic feature");
    assert_eq!(decoded[0].files_changed, vec!["src/main.rs"]);
    assert_eq!(decoded[0].tests_passed, 3);
    assert_eq!(decoded[0].duration_secs, 180);
    assert!(decoded[0].num_turns.is_none());
    assert!(decoded[0].total_cost_micros.is_none());
}

#[test]
fn test_outcome_line_omits_absent_optionals() {
    let logger = JsonlLogger::new(".flow");
    let line = logger.encode_line(&sample_outcome());
    assert!(!line.contains("num_turns"));
    assert!(!line.contains("total_cost_usd"));
    assert!(!line.contains("permission_denial_count"));
    assert!(!line.contains("null"));
}

#[test]
fn test_outcome_line_includes_present_optionals() {
    let logger = JsonlLogger::new(".flow");
    let mut outcome = sample_outcome();
    outcome.num_turns = Some(7);
    outcome.total_cost_micros = Some(2_150_000);
    outcome.permission_denial_count = Some(2);
    outcome.permission_denials = Some(vec!["Edit".to_string(), "Bash".to_string()]);
    let line = logger.encode_line(&outcome);
    let json: serde_json::Value = serde_json::from_str(&line).unwrap();
    assert_eq!(json["num_turns"], 7);
    assert!((json["total_cost_usd"].as_f64().unwrap() - 2.15).abs() < 1e-9);
    assert_eq!(json["permission_denial_count"], 2);
    assert_eq!(json["permission_denials"][0], "Edit");
    let decoded = logger.decode_log(&line).unwrap();
    assert_eq!(decoded[0].num_turns, Some(7));
    assert_eq!(decoded[0].total_cost_micros, Some(2_150_000));
    assert_eq!(decoded[0].permission_denial_count, Some(2));
    assert_eq!(
        decoded[0].permission_denials,
        Some(vec!["Edit".to_string(), "Bash".to_string()])
    );
}

#[test]
fn test_decode_log_skips_blank_lines() {
    let logger = JsonlLogger::new(".flow");
    let line = logger.encode_line(&sample_outcome());
    let content = format!("\n{}\n\n{}\n", line, line);
    let decoded = logger.decode_log(&content).unwrap();
    assert_eq!(decoded.len(), 2);
}

#[test]
fn test_decode_log_errors_on_bad_line() {
    let logger = JsonlLogger::new(".flow");
    assert!(logger.decode_log("not json at all").is_err());
}

#[test]
fn test_decode_log_ignores_unknown_fields() {
    let logger = JsonlLogger::new(".flow");
    let line = r#"{"iteration":2,"cycle":"x","timestamp":"t","outcome":"o","files_changed":[],"tests_passed":0,"duration_secs":5,"future_field":{"a":[1,2,3]}}"#;
    let decoded = logger.decode_log(line).unwrap();
    assert_eq!(decoded[0].iteration, 2);
    assert_eq!(decoded[0].duration_secs, 5);
}

#[test]
fn test_decode_log_missing_file_as_empty_content() {
    let logger = JsonlLogger::new(".flow");
    let decoded = logger.decode_log("").unwrap();
    assert!(decoded.is_empty());
}

#[test]
fn test_total_cost_usd_serializes() {
    let writer = ProgressWriter::new(".flow");
    let mut progress = sample_progress();
    progress.total_cost_micros = 3_450_000;
    let text = writer.encode(&progress);
    let json: serde_json::Value = serde_json::from_str(&text).unwrap();
    let cost = json["total_cost_usd"].as_f64().unwrap();
    assert!((cost - 3.45).abs() < 1e-9);
}

#[test]
fn test_last_outcome_omitted_when_none() {
    let writer = ProgressWriter::new(".flow");
    let mut progress = sample_progress();
    progress.last_outcome = None;
    let text = writer.encode(&progress);
    assert!(!text.contains("last_outcome"));
}

#[test]
fn test_round_trip_serialization() {
    let logger = JsonlLogger::new(".flow");
    let outcome = sample_outcome();
    let line = logger.encode_line(&outcome);
    let decoded = logger.decode_log(&line).unwrap();
    assert_eq!(decoded.len(), 1);
    assert_eq!(decoded[0].iteration, outcome.iteration);
    assert_eq!(decoded[0].cycle, outcome.cycle);
    assert_eq!(decoded[0].timestamp, outcome.timestamp);
    assert_eq!(decoded[0].outcome, outcome.outcome);
    assert_eq!(decoded[0].files_changed, outcome.files_changed);
    assert_eq!(decoded[0].tests_passed, outcome.tests_passed);
    assert_eq!(decoded[0].duration_secs, outcome.duration_secs);
}

#[test]
fn test_cycle_outcome_with_rich_fields() {
    let logger = JsonlLogger::new(".flow");
    let mut outcome = sample_outcome();
    outcome.num_turns = Some(42);
    outcome.total_cost_micros = Some(1_500_000);
    outcome.permission_denial_count = Some(1);
    outcome.permission_denials = Some(vec!["Edit".to_string()]);
    let line = logger.encode_line(&outcome);
    let decoded = logger.decode_log(&line).unwrap();
    assert_eq!(decoded[0].num_turns, Some(42));
    assert_eq!(decoded[0].total_cost_micros, Some(1_500_000));
    assert_eq!(decoded[0].permission_denial_count, Some(1));
    assert_eq!(decoded[0].permission_denials, Some(vec!["Edit".to_string()]));
}

#[test]
fn test_cycle_outcome_with_permission_denials_list() {
    let logger = JsonlLogger::new(".flow");
    let mut outcome = sample_outcome();
    outcome.permission_denials = Some(vec![
        "Edit".to_string(),
        "Bash".to_string(),
        "Edit".to_string(),
    ]);
    let line = logger.encode_line(&outcome);
    let decoded = logger.decode_log(&line).unwrap();
    assert_eq!(
        decoded[0].permission_denials,
        Some(vec!["Edit".to_string(), "Bash".to_string(), "Edit".to_string()])
    );
}

#[test]
fn test_cycle_outcome_steps_field_round_trips() {
    let logger = JsonlLogger::new(".flow");
    let outcome = CycleOutcome {
        iteration: 1,
        cycle: "coding".to_string(),
        timestamp: "2026-01-15T10:00:00Z".to_string(),
        outcome: "Multi-step complete".to_string(),
        files_changed: vec![],
        tests_passed: 0,
        duration_secs: 300,
        num_turns: Some(30),
        total_cost_micros: Some(1_500_000),
        permission_denial_count: None,
        permission_denials: None,
        steps: Some(vec![
            flow::outcome::StepOutcome {
                name: "plan".to_string(),
                session: Some("architect".to_string()),
                duration_secs: 120,
                num_turns: Some(10),
                cost_micros: Some(500_000),
            },
            flow::outcome::StepOutcome {
                name: "implement".to_string(),
                session: None,
                duration_secs: 180,
                num_turns: Some(20),
                cost_micros: Some(1_000_000),
            },
        ]),
    };
    let line = logger.encode_line(&outcome);
    let entries = logger.decode_log(&line).unwrap();
    let steps = entries[0].steps.as_ref().unwrap();
    assert_eq!(steps.len(), 2);
    assert_eq!(steps[0].name, "plan");
    assert_eq!(steps[0].session, Some("architect".to_string()));
    assert_eq!(steps[0].duration_secs, 120);
    assert_eq!(steps[0].num_turns, Some(10));
    assert_eq!(steps[0].cost_micros, Some(500_000));
    assert_eq!(steps[1].name, "implement");
    assert_eq!(steps[1].session, None);
    assert_eq!(steps[1].duration_secs, 180);
}
