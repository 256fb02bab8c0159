use convo_search::{join_tokens, tokenize};

#[test]
fn test_tokenize_lowercases_and_splits() {
    let toks = tokenize("The Quick  BROWN\tfox\n");
    assert_eq!(toks, vec!["the", "quick", "brown", "fox"]);
}

#[test]
fn test_tokenize_empty_and_whitespace() {
    assert!(tokenize("").is_empty());
    assert!(tokenize("   \t \n ").is_empty());
}

#[test]
fn test_tokenize_keeps_punctuation_within_words() {
    let toks = tokenize("hello, world! a-b");
    assert_eq!(toks, vec!["hello,", "world!", "a-b"]);
}

#[test]
fn test_tokenize_idempotent() {
    // Tokenizing the re-joined output of tokenize(x) yields the same
    // tokens as tokenize(x).
    let inputs = [
        "The Quick  BROWN fox",
        "  padded   input ",
        "MiXeD CaSe WoRdS",
        "one",
        "",
        "tabs\tand\nnewlines  everywhere",
        "Grüße ΜΕΓΑ wörld",
        "École\u{a0}déjà vu",
    ];
    for x in inputs {
        let once = tokenize(x);
        let rejoined = join_tokens(&once);
        let twice = tokenize(&rejoined);
        assert_eq!(once, twice, "not idempotent on {:?}", x);
    }
}

#[test]
fn test_join_tokens_single_spaces() {
    let toks = vec!["a".to_string(), "b".to_string(), "c".to_string()];
    assert_eq!(join_tokens(&toks), "a b c");
    let empty: Vec<String> = vec![];
    assert_eq!(join_tokens(&empty), "");
}

#[test]
fn test_tokenize_folds_unicode() {
    let toks = tokenize("Grüße ΜΕΓΑ wörld");
    assert_eq!(toks, vec!["grüße", "μεγα", "wörld"]);
}

#[test]
fn test_tokenize_splits_on_unicode_whitespace() {
    // The no-break space and the other Unicode White_Space code points
    // separate tokens.
    assert_eq!(tokenize("a\u{a0}b"), vec!["a", "b"]);
    assert_eq!(tokenize("x\u{2003}y\u{3000}z"), vec!["x", "y", "z"]);
    assert!(tokenize("\u{2009}\u{85}\u{202f}").is_empty());
}
