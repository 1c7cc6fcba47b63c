use ragcli::chunker::chunk_text;

#[test]
fn empty_input_yields_no_chunks() {
    assert!(chunk_text("", 100, 10).is_empty());
    assert!(chunk_text("   \n\n  ", 100, 10).is_empty());
}

#[test]
fn short_input_yields_single_chunk() {
    let chunks = chunk_text("hello world", 100, 10);
    assert_eq!(chunks, vec!["hello world"]);
}

#[test]
fn long_input_is_split_with_overlap() {
    let text = "word ".repeat(200); // 1000 chars
    let chunks = chunk_text(&text, 100, 20);
    assert!(chunks.len() > 1);
    for chunk in &chunks {
        assert!(chunk.chars().count() <= 100);
    }
    // Consecutive chunks share overlapping content.
    let full: String = chunks.join("");
    assert!(full.len() >= text.trim().len() - chunks.len());
}

#[test]
fn prefers_paragraph_boundary() {
    let text = format!("{}\n\n{}", "a".repeat(80), "b".repeat(80));
    let chunks = chunk_text(&text, 100, 0);
    assert_eq!(chunks.len(), 2);
    assert!(chunks[0].chars().all(|c| c == 'a'));
    assert!(chunks[1].chars().all(|c| c == 'b'));
}

#[test]
fn always_makes_progress() {
    // overlap close to chunk_size must not loop forever
    let text = "x".repeat(50);
    let chunks = chunk_text(&text, 10, 9);
    assert!(!chunks.is_empty());
}

#[test]
fn chunks_are_trimmed_bounded_and_found_in_text() {
    let text = "  alpha beta gamma\n delta epsilon\n\nzeta eta theta iota kappa  ";
    let chunks = chunk_text(text, 12, 3);
    assert!(!chunks.is_empty());
    for chunk in &chunks {
        assert!(!chunk.is_empty());
        assert!(chunk.chars().count() <= 12);
        assert_eq!(chunk.trim(), chunk.as_str());
        assert!(text.contains(chunk.as_str()));
    }
    // every non-whitespace character of the text lies inside some chunk
    // found at its place in the text
    let chars: Vec<char> = text.chars().collect();
    for (p, ch) in chars.iter().enumerate() {
        if ch.is_whitespace() {
            continue;
        }
        let covered = chunks.iter().any(|c| {
            let cc: Vec<char> = c.chars().collect();
            (0..=p).any(|o| o + cc.len() > p && o + cc.len() <= chars.len() && chars[o..o + cc.len()] == cc[..])
        });
        assert!(covered, "character {p} lost");
    }
}

#[test]
fn breaks_at_newline_before_space() {
    // window of 10: the last third is positions 6..10; a newline at 7 wins
    // over the space at 8
    let text = "abcdefg\nh ijklmnop";
    let chunks = chunk_text(text, 10, 0);
    assert_eq!(chunks[0], "abcdefg");
}

#[test]
fn breaks_at_whitespace_when_no_newline() {
    let text = "aaaaaaa bbbbbbbbbb";
    let chunks = chunk_text(text, 10, 0);
    assert_eq!(chunks, vec!["aaaaaaa", "bbbbbbbbbb"]);
}

#[test]
fn cuts_hard_without_any_break() {
    let text = "abcdefghijklmnopqrstuvwxy";
    let chunks = chunk_text(text, 10, 0);
    assert_eq!(chunks, vec!["abcdefghij", "klmnopqrst", "uvwxy"]);
}

#[test]
fn overlap_carries_characters_over() {
    let text = "abcdefghijklmnopqrst";
    let chunks = chunk_text(text, 10, 4);
    assert_eq!(chunks, vec!["abcdefghij", "ghijklmnop", "mnopqrst"]);
}

#[test]
fn unicode_whitespace_is_trimmed() {
    let chunks = chunk_text("\u{3000}word\u{a0}", 100, 10);
    assert_eq!(chunks, vec!["word"]);
}

#[test]
fn counts_characters_not_bytes() {
    let text = "é".repeat(15);
    let chunks = chunk_text(&text, 10, 0);
    assert_eq!(chunks, vec!["é".repeat(10), "é".repeat(5)]);
}
