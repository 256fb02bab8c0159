use convo_search::{format_number, get_first_user_message, total_token_usage, DisplayEvent, TokenUsage};

fn event(role: &str, content: &str) -> DisplayEvent {
    DisplayEvent {
        timestamp: "2024-01-01T00:00:00Z".to_string(),
        role: role.to_string(),
        content: content.to_string(),
        tool_info: None,
        thinking: None,
        usage: None,
        model: None,
    }
}

#[test]
fn test_format_number_groups_thousands() {
    assert_eq!(format_number(0), "0");
    assert_eq!(format_number(7), "7");
    assert_eq!(format_number(999), "999");
    assert_eq!(format_number(1000), "1,000");
    assert_eq!(format_number(1234567), "1,234,567");
    assert_eq!(format_number(1000000000), "1,000,000,000");
    assert_eq!(format_number(u64::MAX), "18,446,744,073,709,551,615");
}

#[test]
fn test_first_user_message_preview() {
    let events = vec![
        event("assistant", "ignored"),
        event("user", ""),
        event("user", "line one\nline two"),
    ];
    assert_eq!(get_first_user_message(&events), "\"line one line two...\"");

    let none: Vec<DisplayEvent> = vec![];
    assert_eq!(get_first_user_message(&none), "(no preview available)");
}

#[test]
fn test_first_user_message_truncates_at_sixty_chars() {
    let long = "x".repeat(100);
    let events = vec![event("user", &long)];
    let preview = get_first_user_message(&events);
    assert_eq!(preview, format!("\"{}...\"", "x".repeat(60)));
}

#[test]
fn test_total_token_usage_sums_assistant_events() {
    let usage = |i: u32, o: u32| TokenUsage {
        input_tokens: i,
        output_tokens: o,
        cache_creation_input_tokens: None,
        cache_read_input_tokens: None,
        service_tier: None,
    };
    let mut a1 = event("assistant", "a");
    a1.usage = Some(usage(10, 20));
    let mut a2 = event("assistant", "b");
    a2.usage = Some(usage(5, 7));
    let mut u1 = event("user", "c");
    u1.usage = Some(usage(100, 100));
    let events = vec![a1, u1, a2, event("assistant", "no usage")];
    assert_eq!(total_token_usage(&events), (15, 27));
}
