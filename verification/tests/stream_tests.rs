use flow::json::Json;
use flow::stream::{parse_event, suggest_permission_fix, StreamAccumulator, StreamEvent};

fn jstr(s: &str) -> Json {
    Json::Str(s.chars().collect())
}

fn jobj(fields: Vec<(&str, Json)>) -> Json {
    Json::Obj(fields.into_iter().map(|(k, v)| (k.chars().collect(), v)).collect())
}

#[test]
fn test_parse_empty_line_returns_none() {
    assert!(parse_event("").is_none());
    assert!(parse_event("   ").is_none());
}

#[test]
fn test_parse_invalid_json_returns_none() {
    assert!(parse_event("not json").is_none());
    assert!(parse_event("{invalid").is_none());
}

#[test]
fn test_parse_system_init_event() {
    let line = r#"{"type":"system","subtype":"init","model":"m-1","session_id":"abc-123","tools":["Read","Edit"]}"#;
    let event = parse_event(line).unwrap();
    let StreamEvent::SystemInit { model, session_id } = event else {
        panic!("Expected SystemInit");
    };
    assert_eq!(model, "m-1");
    assert_eq!(session_id, "abc-123");
}

#[test]
fn test_parse_assistant_text_event() {
    let line = r#"{"type":"assistant","message":{"content":[{"type":"text","text":"Hello! How can I help?"}]}}"#;
    let event = parse_event(line).unwrap();
    let StreamEvent::AssistantText { text } = event else {
        panic!("Expected AssistantText");
    };
    assert_eq!(text, "Hello! How can I help?");
}

#[test]
fn test_parse_assistant_tool_use_event() {
    let line = r#"{"type":"assistant","message":{"content":[{"type":"tool_use","name":"Edit","input":{"file":"test.rs"}}]}}"#;
    let event = parse_event(line).unwrap();
    let StreamEvent::ToolUse { tool_name, input } = event else {
        panic!("Expected ToolUse");
    };
    assert_eq!(tool_name, "Edit");
    match input {
        Json::Obj(fields) => {
            let key: String = fields[0].0.iter().collect();
            assert_eq!(key, "file");
        },
        _ => panic!("Expected an object input"),
    }
}

#[test]
fn test_parse_result_success_event() {
    let line = r#"{"type":"result","subtype":"success","is_error":false,"num_turns":5,"result":"Task completed","total_cost_usd":1.23,"duration_ms":45000,"permission_denials":[]}"#;
    let event = parse_event(line).unwrap();
    let StreamEvent::Result { is_error, result_text, num_turns, total_cost_micros, duration_ms, permission_denials } = event else {
        panic!("Expected Result");
    };
    assert!(!is_error);
    assert_eq!(result_text, "Task completed");
    assert_eq!(num_turns, 5);
    assert_eq!(total_cost_micros, 1_230_000);
    assert_eq!(duration_ms, 45000);
    assert!(permission_denials.is_empty());
}

#[test]
fn test_parse_result_with_permission_denials() {
    let line = r#"{"type":"result","subtype":"success","is_error":false,"num_turns":10,"result":"Done","total_cost_usd":2.50,"duration_ms":60000,"permission_denials":["Edit","Bash"]}"#;
    let event = parse_event(line).unwrap();
    let StreamEvent::Result { permission_denials, total_cost_micros, .. } = event else {
        panic!("Expected Result");
    };
    assert_eq!(permission_denials, vec!["Edit", "Bash"]);
    assert_eq!(total_cost_micros, 2_500_000);
}

#[test]
fn test_parse_result_error_event() {
    let line = r#"{"type":"result","subtype":"error","is_error":true,"num_turns":1,"result":"Error occurred","total_cost_usd":0.05,"duration_ms":1000,"permission_denials":[]}"#;
    let event = parse_event(line).unwrap();
    let StreamEvent::Result { is_error, .. } = event else {
        panic!("Expected Result");
    };
    assert!(is_error);
}

#[test]
fn test_parse_unknown_event_type() {
    let line = r#"{"type":"heartbeat","data":"ping"}"#;
    let event = parse_event(line).unwrap();
    let StreamEvent::Unknown { event_type } = event else {
        panic!("Expected Unknown");
    };
    assert_eq!(event_type, "heartbeat");
}

#[test]
fn test_parse_missing_type_returns_none() {
    let line = r#"{"data":"no type field"}"#;
    assert!(parse_event(line).is_none());
}

#[test]
fn test_parse_real_world_system_init() {
    let line = r#"{"type":"system","subtype":"init","cwd":"/Users/test/project","session_id":"f9c16ac1","tools":["Read","Edit"],"model":"m-1","permissionMode":"default"}"#;
    let event = parse_event(line).unwrap();
    let StreamEvent::SystemInit { model, session_id } = event else {
        panic!("Expected SystemInit");
    };
    assert_eq!(model, "m-1");
    assert_eq!(session_id, "f9c16ac1");
}

#[test]
fn test_parse_real_world_result() {
    let line = r#"{"type":"result","subtype":"success","is_error":false,"duration_ms":2166,"duration_api_ms":2142,"num_turns":1,"result":"Hello! How can I help you today?","total_cost_usd":0.12109,"usage":{"input_tokens":3},"permission_denials":[]}"#;
    let event = parse_event(line).unwrap();
    let StreamEvent::Result { is_error, result_text, num_turns, total_cost_micros, duration_ms, permission_denials } = event else {
        panic!("Expected Result");
    };
    assert!(!is_error);
    assert_eq!(result_text, "Hello! How can I help you today?");
    assert_eq!(num_turns, 1);
    assert_eq!(total_cost_micros, 121_090);
    assert_eq!(duration_ms, 2166);
    assert!(permission_denials.is_empty());
}

#[test]
fn test_parse_assistant_tool_result_event() {
    let line = r#"{"type":"assistant","message":{"content":[{"type":"tool_result","is_error":true,"content":"permission denied"}]}}"#;
    let event = parse_event(line).unwrap();
    let StreamEvent::ToolResult { is_error, content } = event else {
        panic!("Expected ToolResult");
    };
    assert!(is_error);
    assert_eq!(content, "permission denied");
}

#[test]
fn test_parse_assistant_empty_content_returns_none() {
    let line = r#"{"type":"assistant","message":{"content":[]}}"#;
    assert!(parse_event(line).is_none());
}

#[test]
fn test_parse_assistant_skips_unknown_block_to_find_known() {
    let line = r#"{"type":"assistant","message":{"content":[{"type":"thinking","text":"hmm"},{"type":"text","text":"Hello"}]}}"#;
    let event = parse_event(line).unwrap();
    match event {
        StreamEvent::AssistantText { text } => assert_eq!(text, "Hello"),
        _ => panic!("Expected AssistantText"),
    }
}

#[test]
fn test_suggest_permission_fix_write() {
    assert_eq!(suggest_permission_fix("Write"), "Write(./**) or Write(./src/**)");
}

#[test]
fn test_suggest_permission_fix_simple_tools() {
    assert_eq!(suggest_permission_fix("Read"), "Read");
    assert_eq!(suggest_permission_fix("Glob"), "Glob");
    assert_eq!(suggest_permission_fix("Grep"), "Grep");
}

#[test]
fn test_suggest_permission_fix_edit() {
    assert_eq!(suggest_permission_fix("Edit"), "Edit(./**) or Edit(./src/**)");
}

#[test]
fn test_suggest_permission_fix_bash() {
    assert_eq!(suggest_permission_fix("Bash"), "Bash(*) or Bash(cargo *)");
}

#[test]
fn test_suggest_permission_fix_unknown_tool() {
    assert_eq!(suggest_permission_fix("WebSearch"), "WebSearch");
}

#[test]
fn test_accumulator_collects_text() {
    let mut acc = StreamAccumulator::new();
    acc.process(&StreamEvent::AssistantText { text: "Hello".to_string() });
    acc.process(&StreamEvent::AssistantText { text: "World".to_string() });
    assert_eq!(acc.text_fragments, vec!["Hello", "World"]);
}

#[test]
fn test_accumulator_collects_tool_names() {
    let mut acc = StreamAccumulator::new();
    acc.process(&StreamEvent::ToolUse { tool_name: "Edit".to_string(), input: Json::Null });
    acc.process(&StreamEvent::ToolUse { tool_name: "Bash".to_string(), input: Json::Null });
    assert_eq!(acc.tools_used, vec!["Edit", "Bash"]);
}

#[test]
fn test_accumulator_collects_tool_errors() {
    let mut acc = StreamAccumulator::new();
    acc.process(&StreamEvent::ToolResult { is_error: true, content: "permission denied".to_string() });
    acc.process(&StreamEvent::ToolResult { is_error: false, content: "success".to_string() });
    assert_eq!(acc.tool_errors.len(), 1);
    assert_eq!(acc.tool_errors[0], "permission denied");
}

#[test]
fn test_accumulator_captures_result() {
    let mut acc = StreamAccumulator::new();
    let result = StreamEvent::Result {
        is_error: false,
        result_text: "Done".to_string(),
        num_turns: 5,
        total_cost_micros: 1_000_000,
        duration_ms: 30000,
        permission_denials: vec!["Edit".to_string()],
    };
    acc.process(&result);
    assert!(acc.result.is_some());
    assert_eq!(acc.permission_denial_count(), 1);
}

#[test]
fn test_accumulator_permission_denial_count_no_result() {
    let acc = StreamAccumulator::new();
    assert_eq!(acc.permission_denial_count(), 0);
}

#[test]
fn test_accumulator_captures_session_id() {
    let mut acc = StreamAccumulator::new();
    acc.process(&StreamEvent::SystemInit { model: "m-1".to_string(), session_id: "test-session-abc".to_string() });
    assert_eq!(acc.session_id.as_deref(), Some("test-session-abc"));
}

#[test]
fn test_accumulator_session_id_default_is_none() {
    let acc = StreamAccumulator::new();
    assert!(acc.session_id.is_none());
}

#[test]
fn test_accumulator_tracks_edit_file_path() {
    let mut acc = StreamAccumulator::new();
    acc.process(&StreamEvent::ToolUse {
        tool_name: "Edit".to_string(),
        input: jobj(vec![("file_path", jstr("src/main.rs"))]),
    });
    assert_eq!(acc.files_changed, vec!["src/main.rs"]);
}

#[test]
fn test_accumulator_tracks_write_file_path() {
    let mut acc = StreamAccumulator::new();
    acc.process(&StreamEvent::ToolUse {
        tool_name: "Write".to_string(),
        input: jobj(vec![("file_path", jstr("src/lib.rs"))]),
    });
    assert_eq!(acc.files_changed, vec!["src/lib.rs"]);
}

#[test]
fn test_accumulator_deduplicates_files_changed() {
    let mut acc = StreamAccumulator::new();
    acc.process(&StreamEvent::ToolUse {
        tool_name: "Edit".to_string(),
        input: jobj(vec![("file_path", jstr("src/main.rs"))]),
    });
    acc.process(&StreamEvent::ToolUse {
        tool_name: "Edit".to_string(),
        input: jobj(vec![("file_path", jstr("src/main.rs"))]),
    });
    assert_eq!(acc.files_changed, vec!["src/main.rs"]);
}

#[test]
fn test_accumulator_does_not_track_read_tool() {
    let mut acc = StreamAccumulator::new();
    acc.process(&StreamEvent::ToolUse {
        tool_name: "Read".to_string(),
        input: jobj(vec![("file_path", jstr("src/main.rs"))]),
    });
    assert!(acc.files_changed.is_empty());
}

#[test]
fn test_accumulator_does_not_track_bash_tool() {
    let mut acc = StreamAccumulator::new();
    acc.process(&StreamEvent::ToolUse {
        tool_name: "Bash".to_string(),
        input: jobj(vec![("command", jstr("cargo test"))]),
    });
    assert!(acc.files_changed.is_empty());
}

#[test]
fn test_accumulator_files_changed_default_is_empty() {
    let acc = StreamAccumulator::new();
    assert!(acc.files_changed.is_empty());
}

#[test]
fn test_accumulator_tracks_multiple_different_files() {
    let mut acc = StreamAccumulator::new();
    acc.process(&StreamEvent::ToolUse {
        tool_name: "Edit".to_string(),
        input: jobj(vec![("file_path", jstr("src/main.rs"))]),
    });
    acc.process(&StreamEvent::ToolUse {
        tool_name: "Write".to_string(),
        input: jobj(vec![("file_path", jstr("src/lib.rs"))]),
    });
    acc.process(&StreamEvent::ToolUse {
        tool_name: "Edit".to_string(),
        input: jobj(vec![("file_path", jstr("tests/integration_test.rs"))]),
    });
    assert_eq!(acc.files_changed, vec!["src/main.rs", "src/lib.rs", "tests/integration_test.rs"]);
}

#[test]
fn test_accumulator_ignores_edit_without_file_path() {
    let mut acc = StreamAccumulator::new();
    acc.process(&StreamEvent::ToolUse { tool_name: "Edit".to_string(), input: jobj(vec![]) });
    assert!(acc.files_changed.is_empty());
}

#[test]
fn test_accumulator_tracks_tests_passed_from_cargo_output() {
    let mut acc = StreamAccumulator::new();
    acc.process(&StreamEvent::ToolResult {
        is_error: false,
        content: "test result: ok. 42 passed; 0 failed; 0 ignored".to_string(),
    });
    assert_eq!(acc.tests_passed, 42);
}

#[test]
fn test_accumulator_accumulates_tests_passed_across_multiple_results() {
    let mut acc = StreamAccumulator::new();
    acc.process(&StreamEvent::ToolResult {
        is_error: false,
        content: "test result: ok. 10 passed; 0 failed; 0 ignored".to_string(),
    });
    acc.process(&StreamEvent::ToolResult {
        is_error: false,
        content: "test result: ok. 5 passed; 0 failed; 0 ignored".to_string(),
    });
    assert_eq!(acc.tests_passed, 15);
}

#[test]
fn test_accumulator_tests_passed_default_is_zero() {
    let acc = StreamAccumulator::new();
    assert_eq!(acc.tests_passed, 0);
}

#[test]
fn test_accumulator_ignores_non_cargo_tool_result_content() {
    let mut acc = StreamAccumulator::new();
    acc.process(&StreamEvent::ToolResult { is_error: false, content: "File saved successfully".to_string() });
    assert_eq!(acc.tests_passed, 0);
}

#[test]
fn test_accumulator_ignores_cargo_failure_results() {
    let mut acc = StreamAccumulator::new();
    acc.process(&StreamEvent::ToolResult {
        is_error: false,
        content: "test result: FAILED. 5 passed; 2 failed; 0 ignored".to_string(),
    });
    assert_eq!(acc.tests_passed, 5);
}

#[test]
fn test_accumulator_ignores_error_tool_results_for_tests_passed() {
    let mut acc = StreamAccumulator::new();
    acc.process(&StreamEvent::ToolResult { is_error: true, content: "test result: ok. 10 passed; 0 failed".to_string() });
    assert_eq!(acc.tests_passed, 0);
}

#[test]
fn test_parse_tests_passed_exact_value() {
    assert_eq!(flow::stream::parse_tests_passed("test result: ok. 7 passed; 0 failed"), Some(7));
    assert_eq!(flow::stream::parse_tests_passed("no numbers here"), None);
    assert_eq!(flow::stream::parse_tests_passed("7 passed but no marker"), None);
}

#[test]
fn test_parse_event_unicode_escapes() {
    let line = r#"{"type":"assistant","message":{"content":[{"type":"text","text":"café 🎉"}]}}"#;
    let event = parse_event(line).unwrap();
    let StreamEvent::AssistantText { text } = event else {
        panic!("Expected AssistantText");
    };
    assert_eq!(text, "café 🎉");
}
