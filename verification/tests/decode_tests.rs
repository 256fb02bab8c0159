use convo_search::{decode_and_normalize, decode_line, SessionEntry, UserContent};

#[test]
fn test_parse_event() {
    let json = r#"{
            "uuid": "test-uuid",
            "parentUuid": null,
            "sessionId": "test-session",
            "timestamp": "2025-07-22T00:49:44.544Z",
            "type": "user",
            "userType": "external",
            "cwd": "/test",
            "version": "1.0.0",
            "message": {
                "role": "user",
                "content": "Hello there!"
            }
        }"#;

    let entry = decode_line(json).unwrap();
    match entry {
        SessionEntry::User { event } => {
            assert_eq!(event.metadata.uuid, "test-uuid");
        }
        _ => panic!("expected a user entry"),
    }
}

#[test]
fn test_user_plain_content() {
    let line = r#"{"type":"user","uuid":"u1","sessionId":"s1","timestamp":"2024-01-01T00:00:00Z","cwd":"/","message":{"role":"user","content":"hello there"}}"#;
    let ev = decode_and_normalize(line).unwrap();
    assert_eq!(ev.role, "user");
    assert_eq!(ev.content, "hello there");
    assert_eq!(ev.timestamp, "2024-01-01T00:00:00Z");
    assert!(ev.tool_info.is_none());
    assert!(ev.thinking.is_none());
    assert!(ev.usage.is_none());
    assert!(ev.model.is_none());
}

#[test]
fn test_user_block_content_joined() {
    let line = r#"{"type":"user","uuid":"u1","sessionId":"s1","timestamp":"2024-01-01T00:00:00Z","cwd":"/","message":{"role":"user","content":[{"type":"text","text":"first"},{"type":"image","source":{"type":"base64","media_type":"image/png","data":"aaaa"}},{"type":"tool_result","tool_use_id":"t1","content":"second"}]}}"#;
    let ev = decode_and_normalize(line).unwrap();
    assert_eq!(ev.content, "first\nsecond");
}

#[test]
fn test_user_content_trial_order_string_first() {
    // The plain-string shape is tried first; a string that looks like a
    // list stays a string.
    let line = r#"{"type":"user","uuid":"u1","sessionId":"s1","timestamp":"2024-01-01T00:00:00Z","cwd":"/","message":{"role":"user","content":"[not a list]"}}"#;
    let entry = decode_line(line).unwrap();
    match entry {
        SessionEntry::User { event } => match event.message.content {
            UserContent::Text(t) => assert_eq!(t, "[not a list]"),
            _ => panic!("plain string content must decode as text"),
        },
        _ => panic!("expected a user entry"),
    }
}

#[test]
fn test_assistant_first_thinking_last_tool() {
    let line = r#"{"type":"assistant","uuid":"a1","sessionId":"s1","timestamp":"2024-01-01T00:00:01Z","cwd":"/","message":{"id":"m1","type":"message","role":"assistant","model":"m-1","content":[{"type":"thinking","thinking":"first thought","signature":"sig1"},{"type":"text","text":"alpha"},{"type":"thinking","thinking":"second thought","signature":"sig2"},{"type":"tool_use","id":"t1","name":"early","input":{"a":1}},{"type":"text","text":"beta"},{"type":"tool_use","id":"t2","name":"late","input":null}],"usage":{"input_tokens":7,"output_tokens":9}}}"#;
    let ev = decode_and_normalize(line).unwrap();
    assert_eq!(ev.role, "assistant");
    assert_eq!(ev.content, "alpha\nbeta");
    // Of several thinking blocks the first is retained.
    assert_eq!(ev.thinking.as_deref(), Some("first thought"));
    // Of several tool-use blocks the last is retained.
    let tool = ev.tool_info.unwrap();
    assert_eq!(tool.name, "late");
    assert_eq!(tool.id, "t2");
    let usage = ev.usage.unwrap();
    assert_eq!(usage.input_tokens, 7);
    assert_eq!(usage.output_tokens, 9);
    assert_eq!(ev.model.as_deref(), Some("m-1"));
}

#[test]
fn test_system_role_carries_level() {
    let line = r#"{"type":"system","uuid":"y1","sessionId":"s1","timestamp":"2024-01-01T00:00:02Z","cwd":"/","content":"warning text","level":"warn"}"#;
    let ev = decode_and_normalize(line).unwrap();
    assert_eq!(ev.role, "system:warn");
    assert_eq!(ev.content, "warning text");
}

#[test]
fn test_system_level_defaults_to_info() {
    let line = r#"{"type":"system","uuid":"y1","sessionId":"s1","timestamp":"2024-01-01T00:00:02Z","cwd":"/","content":"note"}"#;
    let ev = decode_and_normalize(line).unwrap();
    assert_eq!(ev.role, "system:info");
}

#[test]
fn test_summary_yields_no_event() {
    let line = r#"{"type":"summary","summary":"a short recap","leafUuid":"x"}"#;
    assert!(decode_and_normalize(line).is_none());
}

#[test]
fn test_malformed_lines_yield_none_and_never_panic() {
    let junk = vec![
        "",
        "   ",
        "not json at all",
        "{",
        "[1,2,3]",
        "42",
        "\"just a string\"",
        r#"{"type":"unknown","uuid":"u"}"#,
        r#"{"no_type":"user"}"#,
        r#"{"type":"user","uuid":"u1"}"#,
        r#"{"type":"user","uuid":7,"sessionId":"s","timestamp":"2024-01-01T00:00:00Z","cwd":"/","message":{"role":"user","content":"x"}}"#,
        "{\"type\":\"user\",\"uuid\":\"\u{1F600}\"}",
        "\u{0000}\u{FFFF}",
    ];
    for line in junk {
        assert!(decode_and_normalize(line).is_none(), "line should not decode: {}", line);
    }
}

#[test]
fn test_invalid_timestamp_rejected() {
    let line = r#"{"type":"user","uuid":"u1","sessionId":"s1","timestamp":"yesterday","cwd":"/","message":{"role":"user","content":"x"}}"#;
    assert!(decode_and_normalize(line).is_none());
    let ok = r#"{"type":"user","uuid":"u1","sessionId":"s1","timestamp":"2024-06-01T10:20:30Z","cwd":"/","message":{"role":"user","content":"x"}}"#;
    assert!(decode_and_normalize(ok).is_some());
}

#[test]
fn test_assistant_bad_usage_rejects_record() {
    let line = r#"{"type":"assistant","uuid":"a1","sessionId":"s1","timestamp":"2024-01-01T00:00:01Z","cwd":"/","message":{"id":"m1","type":"message","role":"assistant","model":"m","content":[],"usage":{"input_tokens":-3,"output_tokens":2}}}"#;
    assert!(decode_and_normalize(line).is_none());
}
