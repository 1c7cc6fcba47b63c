use ragcli::store::{describe_document, embedding_from_bytes, embedding_to_bytes, path_filter, StoredDocument};

#[test]
fn embedding_bytes_are_little_endian_f32() {
    let e: Vec<u32> = vec![-1.0f32, 0.5, 2.5].into_iter().map(f32::to_bits).collect();
    let bytes = embedding_to_bytes(&e);
    let expected: Vec<u8> = [-1.0f32, 0.5, 2.5].iter().flat_map(|v| v.to_le_bytes()).collect();
    assert_eq!(bytes, expected);
}

#[test]
fn embedding_round_trips_through_bytes() {
    let e: Vec<u32> = vec![0.1f32, 0.2, 0.3].into_iter().map(f32::to_bits).collect();
    let back = embedding_from_bytes(&embedding_to_bytes(&e));
    let floats: Vec<f32> = back.into_iter().map(f32::from_bits).collect();
    assert_eq!(floats, vec![0.1, 0.2, 0.3]);
}

#[test]
fn embedding_from_bytes_ignores_partial_tail() {
    assert_eq!(embedding_from_bytes(&[1, 0, 0, 0, 9, 9]), vec![1]);
    assert!(embedding_from_bytes(&[]).is_empty());
}

#[test]
fn documents_are_described_with_count_and_error() {
    let ok = StoredDocument {
        source_path: "/d/a.txt".into(),
        chunk_count: 3,
        added_at: "2024-01-02 03:04:05".into(),
        error: None,
    };
    assert_eq!(describe_document(&ok), "2024-01-02 03:04:05  /d/a.txt (3 chunk(s))");
    let failed = StoredDocument {
        source_path: "/d/b.pdf".into(),
        chunk_count: 0,
        added_at: "t".into(),
        error: Some("boom".into()),
    };
    assert_eq!(describe_document(&failed), "t  /d/b.pdf (0 chunk(s), error: boom)");
}

#[test]
fn star_filter_selects_everything() {
    assert_eq!(path_filter("*"), "");
    assert_eq!(path_filter("notes"), "notes");
    assert_eq!(path_filter("**"), "**");
}
