use convo_search::extract_snippet_with_words;

fn words(ws: &[&str]) -> Vec<String> {
    ws.iter().map(|w| w.to_string()).collect()
}

#[test]
fn test_snippet_window_around_match() {
    let text = "The quick brown fox";
    let s = extract_snippet_with_words(text, &words(&["fox"]), 5);
    // "fox" starts at character 16; five characters of context each side,
    // clipped to the text, with an ellipsis only on the cut side.
    assert_eq!(s, "...rown fox");
}

#[test]
fn test_snippet_case_insensitive() {
    let s = extract_snippet_with_words("say HELLO there", &words(&["hello"]), 2);
    assert_eq!(s, "...y HE...");
}

#[test]
fn test_snippet_no_match_takes_head() {
    let text = "abcdefghij";
    let s = extract_snippet_with_words(text, &words(&["zzz"]), 3);
    // First 2 * 3 characters, marked as truncated.
    assert_eq!(s, "abcdef...");
    // A document shorter than the window is returned whole, unmarked.
    let s2 = extract_snippet_with_words("short", &words(&["zzz"]), 10);
    assert_eq!(s2, "short");
}

#[test]
fn test_snippet_multibyte_boundaries() {
    // Characters before the match are multi-byte; the window is counted in
    // characters, so no code point is ever split.
    let text = "héllo wörld fox";
    let s = extract_snippet_with_words(text, &words(&["fox"]), 3);
    assert_eq!(s, "...ld fox");

    let greek = "αβγδε fox ζηθικ";
    let t = extract_snippet_with_words(greek, &words(&["fox"]), 4);
    assert_eq!(t, "...γδε fox...");
    // The output is valid UTF-8 by construction; round-trip through
    // characters to make the boundary claim observable.
    assert_eq!(t.chars().collect::<String>(), t);
}

#[test]
fn test_snippet_earliest_of_several_words() {
    let text = "alpha beta gamma";
    let s = extract_snippet_with_words(text, &words(&["gamma", "beta"]), 2);
    // "beta" occurs earlier than "gamma", so the window centers on it.
    assert_eq!(s, "...a be...");
}

#[test]
fn test_snippet_unicode_case_fold() {
    let s = extract_snippet_with_words("École grande", &words(&["ÉCOLE"]), 3);
    assert_eq!(s, "Éco...");
}

#[test]
fn test_snippet_trims_whitespace() {
    let text = "xx   fox   yy";
    let s = extract_snippet_with_words(text, &words(&["fox"]), 3);
    assert_eq!(s, "...fox...");
}
