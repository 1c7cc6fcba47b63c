use ragcli::answer::{build_prompt, is_yes, preview, sources, PREVIEW_CHARS};
use ragcli::store::SearchResult;

fn result(path: &str, content: &str, score: f32) -> SearchResult {
    SearchResult {
        source_path: path.into(),
        content: content.into(),
        score: score.to_bits(),
    }
}

#[test]
fn is_yes_accepts_only_y_or_yes_case_insensitively() {
    for answer in ["y", "Y", "yes", "YES", " y \n"] {
        assert!(is_yes(answer), "{answer:?} should be yes");
    }
    for answer in ["", "\n", "n", "no", "yess", "sure"] {
        assert!(!is_yes(answer), "{answer:?} should not be yes");
    }
}

#[test]
fn build_prompt_numbers_chunks_and_includes_question() {
    let results = vec![
        result("a.txt", "apples are red", 0.9),
        result("b.txt", "bananas are yellow", 0.5),
    ];
    let prompt = build_prompt("What color are apples?", &results);
    assert!(prompt.contains("[1] (a.txt)\napples are red"));
    assert!(prompt.contains("[2] (b.txt)\nbananas are yellow"));
    assert!(prompt.ends_with("Question: What color are apples?"));
}

#[test]
fn build_prompt_exact_layout() {
    let results = vec![result("a.txt", "one", 1.0)];
    assert_eq!(
        build_prompt("q?", &results),
        "Context:\n\n[1] (a.txt)\none\n\nQuestion: q?"
    );
    assert_eq!(build_prompt("q?", &[]), "Context:\n\nQuestion: q?");
}

#[test]
fn build_prompt_numbers_past_nine() {
    let results: Vec<SearchResult> = (0..12).map(|i| result("p", &i.to_string(), 0.0)).collect();
    let prompt = build_prompt("q", &results);
    assert!(prompt.contains("\n[12] (p)\n11\n"));
}

#[test]
fn preview_collapses_whitespace() {
    assert_eq!(preview("apples\nare  red"), "apples are red");
    assert_eq!(preview("  \t "), "");
}

#[test]
fn preview_truncates_long_content() {
    let long = "x".repeat(PREVIEW_CHARS + 50);
    assert_eq!(preview(&long), format!("{}…", "x".repeat(PREVIEW_CHARS)));
    let exact = "y".repeat(PREVIEW_CHARS);
    assert_eq!(preview(&exact), exact);
}

#[test]
fn sources_are_listed_once_in_order() {
    let results = vec![
        result("b.txt", "1", 0.9),
        result("a.txt", "2", 0.8),
        result("b.txt", "3", 0.7),
    ];
    assert_eq!(sources(&results), vec!["b.txt".to_string(), "a.txt".to_string()]);
}
