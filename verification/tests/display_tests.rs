use flow::display::{format_duration, render_diagnostic_report, render_run_summary, summarize_tool_input, truncate, CycleDisplay};
use flow::doctor::{DiagnosticReport, Finding, Severity};
use flow::json::Json;

fn jstr(s: &str) -> Json {
    Json::Str(s.chars().collect())
}

fn jobj(fields: Vec<(&str, Json)>) -> Json {
    Json::Obj(fields.into_iter().map(|(k, v)| (k.chars().collect(), v)).collect())
}

#[test]
fn test_truncate_short_string_unchanged() {
    assert_eq!(truncate("hello", 10), "hello");
}

#[test]
fn test_truncate_exact_limit_unchanged() {
    assert_eq!(truncate("hello", 5), "hello");
}

#[test]
fn test_truncate_over_limit_appends_ellipsis() {
    assert_eq!(truncate("hello world", 5), "hello...");
}

#[test]
fn test_truncate_multibyte_chars_no_panic() {
    let s = "aaaa—extra text";
    let result = truncate(s, 4);
    assert_eq!(result, "aaaa...");
    assert!(!result.contains('—'));
}

#[test]
fn test_truncate_multibyte_within_limit() {
    let s = "café";
    assert_eq!(truncate(s, 10), "café");
}

#[test]
fn test_truncate_emoji_no_panic() {
    let s = "hello 🎉 world";
    let result = truncate(s, 7);
    assert_eq!(result, "hello 🎉...");
}

#[test]
fn test_truncate_empty_string() {
    assert_eq!(truncate("", 10), "");
}

#[test]
fn test_new_display() {
    let display = CycleDisplay::new("coding");
    assert_eq!(display.cycle_name, "coding");
}

#[test]
fn test_render_diagnostic_report_clean() {
    let report = DiagnosticReport { findings: vec![] };
    let output = render_diagnostic_report(&report);
    assert!(output.contains("No issues found"));
}

#[test]
fn test_render_diagnostic_report_with_findings() {
    let report = DiagnosticReport {
        findings: vec![
            Finding {
                severity: Severity::Error,
                code: "D001".to_string(),
                message: "Permission denied for Edit".to_string(),
                suggestion: Some("Add Edit(./src/**) to permissions".to_string()),
            },
            Finding {
                severity: Severity::Warning,
                code: "D002".to_string(),
                message: "Cycle 'coding' failed 3/4 times".to_string(),
                suggestion: None,
            },
            Finding {
                severity: Severity::Info,
                code: "D004".to_string(),
                message: "Consider setting min_interval".to_string(),
                suggestion: Some("Add min_interval = 3".to_string()),
            },
        ],
    };
    let output = render_diagnostic_report(&report);
    assert!(output.contains("D001"));
    assert!(output.contains("Permission denied"));
    assert!(output.contains("D002"));
    assert!(output.contains("D004"));
    assert!(output.contains("Add Edit(./src/**) to permissions"));
}

#[test]
fn test_render_diagnostic_report_summary_counts() {
    let report = DiagnosticReport {
        findings: vec![
            Finding {
                severity: Severity::Error,
                code: "E1".to_string(),
                message: "err".to_string(),
                suggestion: None,
            },
            Finding {
                severity: Severity::Warning,
                code: "W1".to_string(),
                message: "warn".to_string(),
                suggestion: None,
            },
        ],
    };
    let output = render_diagnostic_report(&report);
    assert!(output.contains("1 error"));
    assert!(output.contains("1 warning"));
}

#[test]
fn test_format_duration_over_one_hour() {
    assert_eq!(format_duration(3661), "61m 1s");
}

#[test]
fn test_format_duration_boundary_59_seconds() {
    assert_eq!(format_duration(59), "59s");
}

#[test]
fn test_format_duration_boundary_60_seconds() {
    assert_eq!(format_duration(60), "1m");
}

#[test]
fn test_format_duration_boundary_61_seconds() {
    assert_eq!(format_duration(61), "1m 1s");
}

#[test]
fn test_summarize_edit_tool() {
    let input = jobj(vec![("file_path", jstr("src/main.rs")), ("old_string", jstr("foo"))]);
    assert_eq!(summarize_tool_input("Edit", &input), " src/main.rs");
}

#[test]
fn test_summarize_read_tool() {
    let input = jobj(vec![("file_path", jstr("Cargo.toml"))]);
    assert_eq!(summarize_tool_input("Read", &input), " Cargo.toml");
}

#[test]
fn test_summarize_write_tool() {
    let input = jobj(vec![("file_path", jstr("src/new.rs")), ("content", jstr("fn main() {}"))]);
    assert_eq!(summarize_tool_input("Write", &input), " src/new.rs");
}

#[test]
fn test_summarize_bash_tool() {
    let input = jobj(vec![("command", jstr("cargo test --lib"))]);
    assert_eq!(summarize_tool_input("Bash", &input), " `cargo test --lib`");
}

#[test]
fn test_summarize_bash_long_command_truncated() {
    let long_cmd = "a".repeat(200);
    let input = jobj(vec![("command", Json::Str(long_cmd.chars().collect()))]);
    let result = summarize_tool_input("Bash", &input);
    assert!(result.len() <= 87);
    assert!(result.ends_with("...`"));
}

#[test]
fn test_summarize_glob_tool() {
    let input = jobj(vec![("pattern", jstr("**/*.rs"))]);
    assert_eq!(summarize_tool_input("Glob", &input), " **/*.rs");
}

#[test]
fn test_summarize_grep_tool() {
    let input = jobj(vec![("pattern", jstr("fn main"))]);
    assert_eq!(summarize_tool_input("Grep", &input), " /fn main/");
}

#[test]
fn test_summarize_unknown_tool() {
    let input = jobj(vec![("data", jstr("whatever"))]);
    assert_eq!(summarize_tool_input("WebSearch", &input), "");
}

#[test]
fn test_summarize_missing_field() {
    let input = jobj(vec![]);
    assert_eq!(summarize_tool_input("Edit", &input), "");
    assert_eq!(summarize_tool_input("Bash", &input), "");
}

#[test]
fn test_render_run_summary_basic() {
    let cycles = vec![("coding".to_string(), 3u32), ("gardening".to_string(), 2u32)];
    let output = render_run_summary(5, 20, 3_450_000, &cycles, 4, 1, 510);
    assert!(output.contains("5/20"));
    assert!(output.contains("$3.45"));
    assert!(output.contains("coding\u{00d7}3"));
    assert!(output.contains("gardening\u{00d7}2"));
    assert!(output.contains("4/5 succeeded"));
    assert!(output.contains("8m 30s"));
}

#[test]
fn test_render_run_summary_all_success() {
    let cycles = vec![("coding".to_string(), 5u32)];
    let output = render_run_summary(5, 10, 1_000_000, &cycles, 5, 0, 300);
    assert!(output.contains("5/5 succeeded"));
}

#[test]
fn test_render_run_summary_single_cycle_type() {
    let cycles = vec![("coding".to_string(), 5u32)];
    let output = render_run_summary(5, 10, 2_000_000, &cycles, 4, 1, 600);
    assert!(output.contains("coding\u{00d7}5"));
    let cycles_line = output.lines().find(|l: &&str| l.contains("Cycles:")).unwrap();
    assert!(!cycles_line.contains(", "));
}

#[test]
fn test_render_run_summary_zero_cost() {
    let cycles: Vec<(String, u32)> = Vec::new();
    let output = render_run_summary(1, 5, 0, &cycles, 1, 0, 30);
    assert!(output.contains("$0.00"));
}
