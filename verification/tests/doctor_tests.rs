use flow::config::{ContextMode, CycleConfig, FlowConfig, GlobalConfig};
use flow::doctor::{diagnose, DiagnosticReport, Finding, Severity};
use flow::outcome::CycleOutcome;

fn make_cycle(name: &str, perms: &[&str], after: &[&str], min_interval: Option<u32>) -> CycleConfig {
    CycleConfig {
        name: name.to_string(),
        description: name.to_string(),
        prompt: name.to_string(),
        permissions: perms.iter().map(|s| s.to_string()).collect(),
        after: after.iter().map(|s| s.to_string()).collect(),
        context: ContextMode::NoContext,
        min_interval,
        max_turns: None,
        max_cost_micros: None,
        steps: vec![],
    }
}

fn make_config(global_perms: &[&str], cycles: Vec<CycleConfig>) -> FlowConfig {
    FlowConfig {
        global: GlobalConfig {
            permissions: global_perms.iter().map(|s| s.to_string()).collect(),
            max_permission_denials: 10,
            circuit_breaker_repeated: 5,
            max_consecutive_failures: 3,
            summary_interval: 5,
            vars: vec![],
        },
        selector: None,
        cycles,
    }
}

fn basic_config() -> FlowConfig {
    make_config(
        &["Read"],
        vec![
            make_cycle("coding", &[], &[], None),
            make_cycle("gardening", &[], &["coding"], Some(3)),
        ],
    )
}

fn make_outcome(iteration: u32, cycle: &str, outcome: &str) -> CycleOutcome {
    CycleOutcome {
        iteration,
        cycle: cycle.to_string(),
        timestamp: "2026-01-15T10:00:00Z".to_string(),
        outcome: outcome.to_string(),
        files_changed: vec![],
        tests_passed: 0,
        duration_secs: 60,
        num_turns: None,
        total_cost_micros: None,
        permission_denial_count: None,
        permission_denials: None,
        steps: None,
    }
}

#[test]
fn test_clean_report_with_no_issues() {
    let config = basic_config();
    let report = diagnose(&config, &Vec::new());
    assert!(report.is_clean());
    assert_eq!(report.error_count(), 0);
    assert_eq!(report.warning_count(), 0);
}

#[test]
fn test_report_counts() {
    let report = DiagnosticReport {
        findings: vec![
            Finding {
                severity: Severity::Error,
                code: "E1".to_string(),
                message: "error".to_string(),
                suggestion: None,
            },
            Finding {
                severity: Severity::Warning,
                code: "W1".to_string(),
                message: "warning".to_string(),
                suggestion: None,
            },
            Finding {
                severity: Severity::Info,
                code: "I1".to_string(),
                message: "info".to_string(),
                suggestion: None,
            },
        ],
    };
    assert_eq!(report.error_count(), 1);
    assert_eq!(report.warning_count(), 1);
    assert_eq!(report.info_count(), 1);
    assert!(!report.is_clean());
}

#[test]
fn test_d001_detects_permission_denials() {
    let config = basic_config();
    let mut entry = make_outcome(1, "coding", "done");
    entry.permission_denials = Some(vec!["Edit".to_string(), "Bash".to_string()]);
    let report = diagnose(&config, &vec![entry]);
    assert_eq!(report.error_count(), 1);
    let finding = &report.findings[0];
    assert_eq!(finding.code, "D001");
    assert!(matches!(finding.severity, Severity::Error));
    assert!(finding.message.contains("coding"));
    assert!(finding.message.contains("2 permission denial"));
    assert!(finding.suggestion.is_some());
}

#[test]
fn test_d001_no_findings_when_no_denials() {
    let config = basic_config();
    let entry = make_outcome(1, "coding", "done");
    let report = diagnose(&config, &vec![entry]);
    assert!(!report.findings.iter().any(|f| f.code == "D001"));
}

#[test]
fn test_d001_deduplicates_tool_names_in_suggestion() {
    let config = basic_config();
    let mut entry = make_outcome(1, "coding", "done");
    entry.permission_denials = Some(vec!["Edit".to_string(), "Edit".to_string(), "Edit".to_string()]);
    let report = diagnose(&config, &vec![entry]);
    let finding = report.findings.iter().find(|f| f.code == "D001").unwrap();
    assert!(finding.message.contains("3 permission denial"));
    let suggestion = finding.suggestion.as_ref().unwrap();
    assert_eq!(suggestion.matches("Edit(./**)").count(), 1);
}

#[test]
fn test_d002_detects_frequent_failures() {
    let config = basic_config();
    let log = vec![
        make_outcome(1, "coding", "Failed with exit code 1"),
        make_outcome(2, "coding", "Failed with exit code 1"),
        make_outcome(3, "coding", "Completed successfully"),
    ];
    let report = diagnose(&config, &log);
    let d002 = report.findings.iter().find(|f| f.code == "D002");
    assert!(d002.is_some());
    assert!(d002.unwrap().message.contains("2/3"));
}

#[test]
fn test_d002_no_warning_for_single_failure() {
    let config = basic_config();
    let log = vec![make_outcome(1, "coding", "Failed with exit code 1")];
    let report = diagnose(&config, &log);
    assert!(report.findings.iter().find(|f| f.code == "D002").is_none());
}

#[test]
fn test_d002_no_warning_when_mostly_successful() {
    let config = basic_config();
    let log = vec![
        make_outcome(1, "coding", "Completed successfully"),
        make_outcome(2, "coding", "Completed successfully"),
        make_outcome(3, "coding", "Failed with exit code 1"),
    ];
    let report = diagnose(&config, &log);
    assert!(report.findings.iter().find(|f| f.code == "D002").is_none());
}

#[test]
fn test_d003_detects_high_cost() {
    let config = basic_config();
    let mut entry = make_outcome(1, "coding", "done");
    entry.total_cost_micros = Some(7_500_000);
    let report = diagnose(&config, &vec![entry]);
    let d003 = report.findings.iter().find(|f| f.code == "D003");
    assert!(d003.is_some());
    assert!(d003.unwrap().message.contains("1 run(s)"));
    assert!(d003.unwrap().message.contains("$7.50"));
}

#[test]
fn test_d003_no_warning_at_exactly_five_dollars() {
    let config = basic_config();
    let mut entry = make_outcome(1, "coding", "done");
    entry.total_cost_micros = Some(5_000_000);
    let report = diagnose(&config, &vec![entry]);
    assert!(report.findings.iter().find(|f| f.code == "D003").is_none());
}

#[test]
fn test_d003_aggregates_multiple_high_cost_runs() {
    let config = basic_config();
    let mut entry1 = make_outcome(1, "coding", "done");
    entry1.total_cost_micros = Some(6_000_000);
    let mut entry2 = make_outcome(2, "coding", "done");
    entry2.total_cost_micros = Some(8_000_000);
    let mut entry3 = make_outcome(3, "coding", "done");
    entry3.total_cost_micros = Some(3_000_000);
    let report = diagnose(&config, &vec![entry1, entry2, entry3]);
    let d003_findings: Vec<_> = report.findings.iter().filter(|f| f.code == "D003").collect();
    assert_eq!(d003_findings.len(), 1);
    assert!(d003_findings[0].message.contains("2 run(s)"));
    assert!(d003_findings[0].message.contains("$8.00"));
}

#[test]
fn test_d003_no_warning_for_normal_cost() {
    let config = basic_config();
    let mut entry = make_outcome(1, "coding", "done");
    entry.total_cost_micros = Some(2_500_000);
    let report = diagnose(&config, &vec![entry]);
    assert!(report.findings.iter().find(|f| f.code == "D003").is_none());
}

#[test]
fn test_d004_warns_triggered_cycle_without_min_interval() {
    let config = make_config(
        &["Read"],
        vec![
            make_cycle("coding", &[], &[], None),
            make_cycle("gardening", &[], &["coding"], None),
        ],
    );
    let report = diagnose(&config, &Vec::new());
    let d004 = report.findings.iter().find(|f| f.code == "D004");
    assert!(d004.is_some());
    assert!(d004.unwrap().message.contains("gardening"));
}

#[test]
fn test_d004_no_warning_when_min_interval_set() {
    let config = basic_config();
    let report = diagnose(&config, &Vec::new());
    assert!(report.findings.iter().find(|f| f.code == "D004").is_none());
}

#[test]
fn test_d005_warns_cycle_with_no_permissions() {
    let config = make_config(&[], vec![make_cycle("coding", &[], &[], None)]);
    let report = diagnose(&config, &Vec::new());
    assert!(report.findings.iter().find(|f| f.code == "D005").is_some());
}

#[test]
fn test_d006_suggests_frequency_tuning_for_close_runs() {
    let config = make_config(
        &["Read"],
        vec![
            make_cycle("coding", &[], &[], None),
            make_cycle("gardening", &[], &["coding"], None),
        ],
    );
    let log = vec![
        make_outcome(1, "coding", "done"),
        make_outcome(2, "gardening", "done"),
        make_outcome(3, "gardening", "done"),
    ];
    let report = diagnose(&config, &log);
    assert!(report.findings.iter().find(|f| f.code == "D006").is_some());
}

#[test]
fn test_d006_skips_when_min_interval_already_set() {
    let config = make_config(
        &["Read"],
        vec![
            make_cycle("coding", &[], &[], None),
            make_cycle("gardening", &[], &["coding"], Some(3)),
        ],
    );
    let log = vec![
        make_outcome(1, "coding", "done"),
        make_outcome(2, "gardening", "done"),
        make_outcome(3, "gardening", "done"),
    ];
    let report = diagnose(&config, &log);
    assert!(report.findings.iter().find(|f| f.code == "D006").is_none());
}

#[test]
fn test_findings_ordered_by_severity() {
    let config = make_config(
        &[],
        vec![
            make_cycle("coding", &[], &[], None),
            make_cycle("gardening", &[], &["coding"], None),
        ],
    );
    let mut entry = make_outcome(1, "coding", "done");
    entry.permission_denials = Some(vec!["Edit".to_string()]);
    let report = diagnose(&config, &vec![entry]);
    let rank = |s: &Severity| match s {
        Severity::Error => 0,
        Severity::Warning => 1,
        Severity::Info => 2,
    };
    for pair in report.findings.windows(2) {
        assert!(rank(&pair[0].severity) <= rank(&pair[1].severity));
    }
}

#[test]
fn test_d001_message_and_suggestion_text() {
    let config = basic_config();
    let mut entry = make_outcome(4, "coding", "done");
    entry.permission_denials = Some(vec![
        "Edit".to_string(),
        "Bash".to_string(),
        "Edit".to_string(),
    ]);
    let report = diagnose(&config, &vec![entry]);
    let finding = report.findings.iter().find(|f| f.code == "D001").unwrap();
    assert_eq!(
        finding.message,
        "Cycle 'coding' had 3 permission denial(s) in iteration 4: Edit, Bash"
    );
    assert_eq!(
        finding.suggestion.as_deref(),
        Some(
            "Add to the configuration permissions: Edit(./**) or Edit(./src/**), Bash(*) or Bash(cargo *)"
        )
    );
}
