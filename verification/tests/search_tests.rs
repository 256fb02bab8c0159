use convo_search::{build_search_text, search_events, DisplayEvent, JsonValue, ToolInfo};

fn event(ts: &str, role: &str, content: &str) -> DisplayEvent {
    DisplayEvent {
        timestamp: ts.to_string(),
        role: role.to_string(),
        content: content.to_string(),
        tool_info: None,
        thinking: None,
        usage: None,
        model: None,
    }
}

#[test]
fn test_search_ranks_matching_events() {
    let events = vec![
        event("t0", "user", "the quick brown fox jumps over the lazy dog"),
        event("t1", "assistant", "the lazy dog sleeps all day"),
        event("t2", "user", "the brown fox hunts at night"),
        event("t3", "user", "cats are completely different animals"),
        event("t4", "assistant", "programming in rust is fun"),
    ];
    let matches = search_events(&events, "brown fox");
    // Only the two events containing the terms match; the event with
    // neither term is excluded entirely. The shorter matching event
    // normalizes higher and ranks first.
    assert_eq!(matches.len(), 2);
    assert_eq!(matches[0].timestamp, "t2");
    assert_eq!(matches[1].timestamp, "t0");
    assert!(matches[0].score >= matches[1].score);
    assert!(matches[0].score > 0 && matches[1].score > 0);
    assert_eq!(matches[0].role, "user");
    assert!(matches[0].content.contains("brown fox"));
}

#[test]
fn test_search_end_to_end_ranking() {
    // The two documents containing the query terms rank above the one with
    // neither, which is excluded entirely. Two filler documents keep the
    // terms in a minority of the corpus so their inverse document
    // frequency is positive.
    let events = vec![
        event("t0", "user", "the quick brown fox"),
        event("t1", "user", "the lazy dog"),
        event("t2", "user", "brown fox hunts"),
        event("t3", "user", "filler alpha entry"),
        event("t4", "user", "filler beta entry"),
    ];
    let matches = search_events(&events, "brown fox");
    assert_eq!(matches.len(), 2);
    let stamps: Vec<&str> = matches.iter().map(|m| m.timestamp.as_str()).collect();
    assert!(stamps.contains(&"t0") && stamps.contains(&"t2"));
    assert!(!stamps.contains(&"t1"));
    assert!(matches.iter().all(|m| m.score > 0));
}

#[test]
fn test_search_majority_terms_score_out() {
    // With the query terms in two documents of three, their inverse
    // document frequency is negative, so even the containing documents
    // score at or below zero and nothing is matched. Matching is defined
    // by a strictly positive score, not by term presence.
    let events = vec![
        event("t0", "user", "the quick brown fox"),
        event("t1", "user", "the lazy dog"),
        event("t2", "user", "brown fox hunts"),
    ];
    assert!(search_events(&events, "brown fox").is_empty());
}

#[test]
fn test_search_empty_corpus_yields_nothing() {
    let events: Vec<DisplayEvent> = vec![];
    assert!(search_events(&events, "any query").is_empty());
}

#[test]
fn test_search_query_without_matches_is_empty() {
    let events = vec![
        event("t0", "user", "alpha beta"),
        event("t1", "user", "gamma delta"),
    ];
    assert!(search_events(&events, "zebra quagga").is_empty());
}

#[test]
fn test_search_blank_query_is_empty() {
    let events = vec![event("t0", "user", "alpha beta")];
    assert!(search_events(&events, "").is_empty());
    assert!(search_events(&events, "   \t ").is_empty());
}

#[test]
fn test_search_ties_keep_timeline_order() {
    let events = vec![
        event("t0", "user", "needle one"),
        event("t1", "user", "needle two"),
        event("t2", "user", "filler text here"),
        event("t3", "user", "other filler body"),
        event("t4", "user", "more filler words"),
    ];
    let matches = search_events(&events, "needle");
    assert_eq!(matches.len(), 2);
    // Equal scores: the earlier event comes first.
    assert_eq!(matches[0].score, matches[1].score);
    assert_eq!(matches[0].timestamp, "t0");
    assert_eq!(matches[1].timestamp, "t1");
}

#[test]
fn test_search_text_includes_thinking_and_tool() {
    let mut e = event("t0", "assistant", "surface text");
    e.thinking = Some("hidden reasoning".to_string());
    e.tool_info = Some(ToolInfo {
        name: "lookup".to_string(),
        id: "t1".to_string(),
        input: JsonValue::Null,
    });
    assert_eq!(
        build_search_text(&e),
        "surface text\nhidden reasoning\n[Tool: lookup]"
    );

    let events = vec![
        e,
        event("t1", "user", "filler one"),
        event("t2", "user", "filler two"),
    ];
    // A term that only occurs in the thinking still matches the event.
    let matches = search_events(&events, "reasoning");
    assert_eq!(matches.len(), 1);
    assert_eq!(matches[0].timestamp, "t0");
}
