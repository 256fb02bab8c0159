use convo_search::BM25;

#[test]
fn test_bm25_basic() {
    let docs = vec![
        "the quick brown fox jumps over the lazy dog".to_string(),
        "the lazy dog sleeps all day".to_string(),
        "the brown fox hunts at night".to_string(),
        "cats are completely different animals".to_string(),
        "programming in rust is fun".to_string(),
    ];

    let bm25 = BM25::new(&docs, 1_200_000, 750_000);

    // Test 1: Document containing both query terms should score higher than one with neither
    let score_both = bm25.score("brown fox", &docs[0]); // has both terms
    let score_neither = bm25.score("brown fox", &docs[4]); // has neither term
    assert!(score_both > score_neither);

    // Test 2: Exact term matching
    let score_fox1 = bm25.score("fox", &docs[0]); // has "fox"
    let score_fox2 = bm25.score("fox", &docs[1]); // no "fox"
    assert!(score_fox1 > score_fox2);

    // Test 3: Multiple occurrences and document length normalization
    let score_dog1 = bm25.score("dog", &docs[0]); // "dog" in longer doc
    let score_dog2 = bm25.score("dog", &docs[1]); // "dog" in shorter doc
                                                  // Both have "dog" once, but doc2 is shorter so should score higher
    assert!(score_dog2 > score_dog1);
}

#[test]
fn test_empty_corpus_scores_zero() {
    let docs: Vec<String> = vec![];
    let bm25 = BM25::new(&docs, 1_200_000, 750_000);
    assert_eq!(bm25.score("anything at all", "some document text"), 0);
    assert_eq!(bm25.score("", ""), 0);
}

#[test]
fn test_absent_terms_contribute_nothing() {
    let docs = vec![
        "alpha beta gamma".to_string(),
        "delta epsilon".to_string(),
        "zeta eta theta".to_string(),
    ];
    let bm25 = BM25::new(&docs, 1_200_000, 750_000);
    assert_eq!(bm25.score("missing words only", &docs[0]), 0);
}

#[test]
fn test_doc_with_all_terms_beats_doc_with_none() {
    // Five documents; the query terms sit in two of them, so their inverse
    // document frequency is positive.
    let docs = vec![
        "brown fox runs".to_string(),
        "red panda naps".to_string(),
        "brown fox rests".to_string(),
        "green turtle swims".to_string(),
        "grey wolf howls".to_string(),
    ];
    let bm25 = BM25::new(&docs, 1_200_000, 750_000);
    let with_all = bm25.score("brown fox", &docs[0]);
    let with_none = bm25.score("brown fox", &docs[1]);
    assert!(with_all > 0);
    assert_eq!(with_none, 0);
    assert!(with_all >= with_none);
}

#[test]
fn test_shorter_doc_scores_at_least_as_high() {
    let docs = vec![
        "needle word one two three four five six seven".to_string(),
        "needle short".to_string(),
        "filler text".to_string(),
        "other filler".to_string(),
        "more filler".to_string(),
    ];
    let bm25 = BM25::new(&docs, 1_200_000, 750_000);
    let long_score = bm25.score("needle", &docs[0]);
    let short_score = bm25.score("needle", &docs[1]);
    assert!(short_score >= long_score);
    assert!(short_score > 0);
}

#[test]
fn test_scoring_folds_unicode_case() {
    let docs = vec![
        "École ancienne".to_string(),
        "deux mots".to_string(),
        "trois mots".to_string(),
    ];
    let bm25 = BM25::new(&docs, 1_200_000, 750_000);
    assert!(bm25.score("école", &docs[0]) > 0);
    assert!(bm25.score("ÉCOLE", &docs[0]) > 0);
}

#[test]
fn test_majority_term_scores_nonpositive() {
    // A term in more than half the corpus has a negative inverse document
    // frequency: a document that contains it can still score at or below
    // zero. This is BM25 behavior, not a defect.
    let docs = vec![
        "common word here".to_string(),
        "common word there".to_string(),
        "common word everywhere".to_string(),
        "something else".to_string(),
    ];
    let bm25 = BM25::new(&docs, 1_200_000, 750_000);
    assert!(bm25.score("common", &docs[0]) <= 0);
}

#[test]
fn test_exact_score_value_single_doc_single_term() {
    // One document, one term occurring once: df == 1, N == 1, dl == avg == 2.
    // idf = ln((1 - 1 + 0.5) / (1 + 0.5)) = ln(1/3) < 0, so the score is
    // negative; with tf_norm = 2.2 / (1 + 1.2) = 1.0, the contribution is
    // idf itself. The fixed-point logarithm gives -1_098_605 millionths
    // (ln 3 = 1.098612...).
    let docs = vec!["needle word".to_string()];
    let bm25 = BM25::new(&docs, 1_200_000, 750_000);
    let s = bm25.score("needle", &docs[0]);
    assert!(s < 0);
    // Within a thousandth of the real value of -ln(3).
    assert!((-1_099_612..=-1_097_612).contains(&s), "score was {}", s);
}
