use convo_search::{highlight_match, highlight_ranges};

#[test]
fn test_highlight_wraps_whole_words() {
    let out = highlight_match("The brown Fox jumps", "fox brown", "[", "]");
    assert_eq!(out, "The [brown] [Fox] jumps");
}

#[test]
fn test_highlight_short_words_excluded() {
    // Query words shorter than three characters are not highlighted.
    let out = highlight_match("it is on the mat", "it on mat", "[", "]");
    assert_eq!(out, "it is on the [mat]");
}

#[test]
fn test_highlight_whole_word_only() {
    // "fox" inside "foxy" is not a whole-word occurrence.
    let out = highlight_match("foxy fox foxtrot", "fox", "[", "]");
    assert_eq!(out, "foxy [fox] foxtrot");
}

#[test]
fn test_highlight_ranges_never_overlap() {
    let rs = highlight_ranges("aaa bbb aaa bbb aaa", "aaa bbb");
    for (i, a) in rs.iter().enumerate() {
        assert!(a.0 < a.1);
        for b in rs.iter().skip(i + 1) {
            assert!(a.1 <= b.0 || b.1 <= a.0, "ranges {:?} and {:?} overlap", a, b);
        }
    }
    assert_eq!(rs.len(), 5);
}

#[test]
fn test_highlight_idempotent_on_stripped_output() {
    // With empty markers the output is the text itself, so re-running the
    // highlighter on its own stripped output repeats the same result.
    let text = "alpha beta gamma beta";
    let query = "beta gamma";
    let stripped = highlight_match(text, query, "", "");
    assert_eq!(stripped, text);
    let once = highlight_match(text, query, "<", ">");
    let twice = highlight_match(&stripped, query, "<", ">");
    assert_eq!(once, twice);
    assert_eq!(once, "alpha <beta> <gamma> <beta>");
}

#[test]
fn test_highlight_first_word_wins_overlap() {
    // "own" standing alone is claimed by the earlier query word before
    // "brown" is considered; inside "brown" it is not a whole word.
    let out = highlight_match("own brown", "own brown", "[", "]");
    assert_eq!(out, "[own] [brown]");
}

#[test]
fn test_highlight_unicode_fold_and_boundaries() {
    // The query folds case across Unicode, and a non-ASCII letter next to
    // a match makes it a partial word, not a whole one.
    let out = highlight_match("École fox žfox", "école fox", "[", "]");
    assert_eq!(out, "[École] [fox] žfox");
}

#[test]
fn test_highlight_no_query_words_no_changes() {
    let out = highlight_match("nothing to see", "zz", "[", "]");
    assert_eq!(out, "nothing to see");
}
