use flow::json::{emit_json, parse_json, Json};

fn chars(s: &str) -> Vec<char> {
    s.chars().collect()
}

fn parse(s: &str) -> Option<Json> {
    parse_json(&chars(s))
}

fn text(v: &Json) -> String {
    emit_json(v).iter().collect()
}

#[test]
fn test_parse_scalars() {
    assert!(matches!(parse("null"), Some(Json::Null)));
    assert!(matches!(parse("true"), Some(Json::Bool(true))));
    assert!(matches!(parse("false"), Some(Json::Bool(false))));
    assert!(matches!(parse(" 42 "), Some(Json::Num(_))));
}

#[test]
fn test_parse_rejects_garbage() {
    assert!(parse("").is_none());
    assert!(parse("   ").is_none());
    assert!(parse("nul").is_none());
    assert!(parse("{").is_none());
    assert!(parse("[1,]").is_none());
    assert!(parse("{}extra").is_none());
    assert!(parse("01").is_none());
}

#[test]
fn test_parse_accepts_number_forms() {
    assert!(parse("0").is_some());
    assert!(parse("-12").is_some());
    assert!(parse("3.25").is_some());
    assert!(parse("1e3").is_some());
    assert!(parse("-1.5E-2").is_some());
    assert!(parse("1.").is_none());
    assert!(parse("+1").is_none());
}

#[test]
fn test_parse_string_escapes() {
    let v = parse(r#""a\"b\\c\ndA""#).unwrap();
    match v {
        Json::Str(s) => {
            let got: String = s.iter().collect();
            assert_eq!(got, "a\"b\\c\ndA");
        }
        _ => panic!("Expected a string"),
    }
}

#[test]
fn test_parse_surrogate_pair() {
    let v = parse(r#""🎉""#).unwrap();
    match v {
        Json::Str(s) => {
            let got: String = s.iter().collect();
            assert_eq!(got, "🎉");
        }
        _ => panic!("Expected a string"),
    }
}

#[test]
fn test_parse_rejects_lone_surrogate() {
    assert!(parse(r#""\ud83c""#).is_none());
}

#[test]
fn test_parse_nested_structure() {
    let v = parse(r#"{"a": [1, {"b": null}], "c": "x"}"#).unwrap();
    match v {
        Json::Obj(fields) => assert_eq!(fields.len(), 2),
        _ => panic!("Expected an object"),
    }
}

#[test]
fn test_parse_depth_limit_rejects_very_deep_nesting() {
    let deep = format!("{}{}", "[".repeat(200), "]".repeat(200));
    assert!(parse(&deep).is_none());
    let shallow = format!("{}1{}", "[".repeat(50), "]".repeat(50));
    assert!(parse(&shallow).is_some());
}

#[test]
fn test_emit_parse_round_trip() {
    let doc = Json::Obj(vec![
        (chars("name"), Json::Str(chars("line \"one\"\nline two"))),
        (chars("count"), Json::Num(chars("42"))),
        (chars("flag"), Json::Bool(true)),
        (chars("items"), Json::Arr(vec![Json::Null, Json::Str(chars("x"))])),
    ]);
    let emitted = text(&doc);
    let reparsed = parse(&emitted).unwrap();
    assert_eq!(text(&reparsed), emitted);
}

#[test]
fn test_emit_escapes_control_characters() {
    let doc = Json::Str(chars("tab\there\u{1}"));
    let emitted = text(&doc);
    assert!(emitted.contains("\\t"));
    assert!(emitted.contains("\\u0001"));
    let v: serde_json::Value = serde_json::from_str(&emitted).unwrap();
    assert_eq!(v.as_str().unwrap(), "tab\there\u{1}");
}

#[test]
fn test_parse_agrees_with_reference_parser_on_samples() {
    for sample in [
        r#"{"a":1,"b":[true,false,null],"c":{"d":"e"}}"#,
        r#"  [ "x" , -2.5 , {} ]  "#,
        r#""é""#,
        "tru",
        "[1 2]",
        r#"{"a" 1}"#,
    ] {
        let ours = parse(sample).is_some();
        let reference = serde_json::from_str::<serde_json::Value>(sample).is_ok();
        assert_eq!(ours, reference, "disagreement on {sample:?}");
    }
}

#[test]
fn test_assistant_line_with_type_but_no_block_yields_nothing() {
    assert!(flow::stream::parse_event(r#"{"type":"assistant"}"#).is_none());
    assert!(flow::stream::parse_event(r#"{"type":"assistant","message":{"content":[]}}"#).is_none());
}

#[test]
fn test_duplicate_keys_last_wins() {
    let event = flow::stream::parse_event(r#"{"type":"x","type":"heartbeat"}"#).unwrap();
    match event {
        flow::stream::StreamEvent::Unknown { event_type } => assert_eq!(event_type, "heartbeat"),
        _ => panic!("Expected Unknown"),
    }
}
