use std::collections::hash_map::DefaultHasher;
use std::collections::HashSet;
use std::hash::{Hash, Hasher};

use convo_search::session_names::SessionNameGenerator;
use convo_search::siphash::siphash13;

#[test]
fn test_generate_consistent() {
    let generator = SessionNameGenerator::new();
    let session_id = "test-session-123";

    // Generate the same name twice
    let name1 = generator.generate(session_id, "space");
    let name2 = generator.generate(session_id, "space");

    assert_eq!(name1, name2);
}

#[test]
fn test_generate_different_sessions() {
    let generator = SessionNameGenerator::new();

    // Generate names for different session IDs
    let name1 = generator.generate("session-1", "space");
    let name2 = generator.generate("session-2", "space");

    // They should be different
    assert_ne!(name1, name2);
}

#[test]
fn test_no_duplicate_names_across_many_sessions() {
    let generator = SessionNameGenerator::new();
    let mut names = HashSet::new();

    // Test 10000 sessions (realistic for a heavy user)
    for i in 0..10000 {
        let session_id = format!("session-{}", i);
        let name = generator.generate(&session_id, "tech");

        // Check for duplicates
        assert!(
            names.insert(name.clone()),
            "Duplicate name '{}' generated for session '{}' after {} unique names",
            name,
            session_id,
            names.len()
        );
    }

    println!("Generated {} unique names", names.len());
}

#[test]
fn test_collision_rate() {
    let generator = SessionNameGenerator::new();
    let mut names = HashSet::new();
    let mut first_collision = None;

    // Test to find when collisions start happening
    for i in 0..100000 {
        let session_id = format!("{:016x}", (i as u64).wrapping_mul(0x123456789ABCDEFu64));
        let name = generator.generate(&session_id, "tech");

        if !names.insert(name.clone()) {
            first_collision = Some((i, name, names.len()));
            break;
        }
    }

    match first_collision {
        Some((i, name, unique_count)) => {
            println!(
                "First collision at iteration {}: '{}' (after {} unique names)",
                i, name, unique_count
            );
            assert!(
                unique_count > 40000,
                "Should generate at least 40k unique names, got {}",
                unique_count
            );
        }
        None => println!("No collisions in 100k names!"),
    }
}

#[test]
fn test_siphash_matches_std_default_hasher() {
    // The verified hash computes the same function as the standard
    // library's default hasher over a string's hash stream (its bytes
    // followed by the 0xff marker).
    let samples = [
        "",
        "a",
        "session-1",
        "test-session-123",
        "a longer input that spans more than one eight byte block",
        "exact-8b",
    ];
    for s in samples {
        let mut h = DefaultHasher::new();
        s.hash(&mut h);
        let expected = h.finish();

        let mut bytes: Vec<u8> = s.as_bytes().to_vec();
        bytes.push(0xff);
        assert_eq!(siphash13(&bytes), expected, "hash mismatch for {:?}", s);
    }
}

#[test]
fn test_generate_shape() {
    // Names are two adjectives and a noun joined by dashes; the word lists
    // hold plain words, so the name has exactly two dashes.
    let generator = SessionNameGenerator::new();
    let name = generator.generate("some-session", "tech");
    assert!(!name.is_empty());
    assert_eq!(name.matches('-').count(), 2, "name was {}", name);
}
