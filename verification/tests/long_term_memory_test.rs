use ai_proxy::janitor::{find_similar_pairs, levenshtein_distance};

/// Normalized similarity `1 - distance / max character count`, as the janitor
/// compares it against its threshold.
fn levenshtein_similarity(a: &str, b: &str) -> f64 {
    let dist = levenshtein_distance(a, b);
    let max_len = a.chars().count().max(b.chars().count()) as f64;
    if max_len == 0.0 {
        return 1.0;
    }
    1.0 - (dist as f64 / max_len)
}

#[test]
fn test_levenshtein_distance() {
    // Exact match
    assert_eq!(levenshtein_distance("hello", "hello"), 0);
    assert!((levenshtein_similarity("hello", "hello") - 1.0).abs() < 0.001);

    // One character difference
    assert_eq!(levenshtein_distance("hello", "hallo"), 1);
    assert!((levenshtein_similarity("hello", "hallo") - 0.8).abs() < 0.001);

    // Completely different
    assert_eq!(levenshtein_distance("abc", "xyz"), 3);
    assert!((levenshtein_similarity("abc", "xyz") - 0.0).abs() < 0.001);

    // Empty strings
    assert_eq!(levenshtein_distance("", ""), 0);
    assert!((levenshtein_similarity("", "") - 1.0).abs() < 0.001);
    assert_eq!(levenshtein_distance("abc", ""), 3);
    assert!((levenshtein_similarity("abc", "") - 0.0).abs() < 0.001);

    // Similar names (typo / abbreviation)
    let dist = levenshtein_distance("Next.js", "nextjs");
    assert_eq!(dist, 2);
    let sim = levenshtein_similarity("Next.js", "nextjs");
    assert!(sim > 0.7);

    // Japanese text
    assert_eq!(levenshtein_distance("酸化還元反応", "酸化還元"), 2);
    let sim_ja = levenshtein_similarity("酸化還元反応", "酸化還元");
    assert!(sim_ja > 0.65);
}

#[test]
fn test_find_similar_pairs() {
    // No similar pairs
    let names1: Vec<String> = vec!["React".into(), "Python".into(), "Docker".into()];
    let pairs1 = find_similar_pairs(&names1, 9, 10);
    assert!(pairs1.is_empty());

    // Similar pair: "Next.js" and "nextjs"
    let names2: Vec<String> = vec!["Next.js".into(), "nextjs".into(), "Rust".into()];
    let pairs2 = find_similar_pairs(&names2, 7, 10);
    assert_eq!(pairs2.len(), 1);
    assert_eq!(pairs2[0].0, "Next.js"); // longer name kept
    assert_eq!(pairs2[0].1, "nextjs");

    // Multiple similar pairs
    let names3: Vec<String> = vec![
        "酸化還元反応".into(),
        "酸化還元".into(),
        "Minecraft".into(),
        "minecraft".into(),
    ];
    let pairs3 = find_similar_pairs(&names3, 6, 10);
    assert_eq!(pairs3.len(), 2);
}
